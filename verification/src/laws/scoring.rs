//! Laws of scoring: what evidence counts, and what a project is said to come from.

use crate::detect::classify;
use crate::detect::classify::ProjectKind;
use crate::detect::commits::LanguageAnalysis;
use crate::detect::score;
use crate::detect::transitions::HistoryAnalysis;
use crate::double;
use crate::double::Double;
use crate::laws::languages;
use crate::laws::numbers;
use crate::rounding;
use crate::rounding::DENSE;
use crate::text_model as model;
use crate::types::{Candidate, RewritePr, Signal};
use vstd::prelude::*;
use vstd::string::*;

verus! {

// --- Original language -------------------------------------------------------

/// Where the analysis shows a displaced language that can be one, the project comes
/// from it, whatever its history shows.
pub proof fn analyzed_languages_come_first(
    analysis: LanguageAnalysis,
    history: HistoryAnalysis,
    language: Seq<char>,
)
    requires
        analysis.original_language matches Some(l) && l@ == language,
        languages::can_be_displaced(language),
    ensures
        score::original_language_of(analysis, history) == Some(language),
{
}

/// Where the analysis shows none and the history shows a strong transition away
/// from a language that can be one, the project comes from that: a finished
/// migration still tells what it left.
pub proof fn finished_migrations_keep_their_origin(
    analysis: LanguageAnalysis,
    history: HistoryAnalysis,
    language: Seq<char>,
)
    requires
        analysis.original_language is None,
        history.strong_transition,
        history.from_language matches Some(l) && l@ == language,
        languages::can_be_displaced(language),
    ensures
        score::original_language_of(analysis, history) == Some(language),
{
}

/// Without a displaced language and without a strong transition, a project comes
/// from nowhere.
pub proof fn no_origin_is_made_up(analysis: LanguageAnalysis, history: HistoryAnalysis)
    requires
        analysis.original_language is None,
        !history.strong_transition || history.from_language is None,
    ensures
        score::original_language_of(analysis, history) is None,
{
}

// --- Evidence ----------------------------------------------------------------

/// Evidence that is not negative and at most one.
proof fn lemma_parts_are_fractions(
    signals: Seq<Signal>,
    analysis: LanguageAnalysis,
    history: HistoryAnalysis,
)
    requires
        analysis.rust_percentage.at_least(Double { bits: 0 }),
        !analysis.rust_percentage.is_negative(),
        history.transition_magnitude matches Some(m) ==> m.at_least(Double { bits: 0 })
            && !m.is_negative(),
    ensures
        numbers::is_moderate(score::text_evidence(signals)),
        numbers::is_moderate(score::language_evidence(analysis)),
        numbers::is_moderate(score::history_evidence(history)),
        is_small(score::text_evidence(signals)),
        is_small(score::language_evidence(analysis)),
        is_small(score::history_evidence(history)),
{
    lemma_weights(signals, signals.len() as int);
    score::evidence_is_capped(signals, analysis, history);
    lemma_small(score::text_evidence(signals));
    let hundred = Double { bits: double::HUNDRED };
    let zero = Double { bits: 0 };
    double::quotients_keep_order(zero, analysis.rust_percentage, hundred);
    let share = double::quotient(analysis.rust_percentage, hundred);
    let weight = if analysis.original_language is Some {
        score::DISPLACED_WEIGHT
    } else {
        score::SHARE_WEIGHT
    };
    let primary = Double {
        bits: if analysis.original_language is Some {
            score::DISPLACED_PRIMARY
        } else {
            score::PRIMARY
        },
    };
    double::quotients_keep_order(analysis.rust_percentage, analysis.rust_percentage, hundred);
    double::products_keep_order(share, share, Double { bits: weight });
    let scaled = double::product(share, Double { bits: weight });
    lemma_sum_is_positive(scaled, primary);
    lemma_small(score::language_evidence(analysis));
    let strong = double::sum(zero, Double { bits: score::TRANSITION });
    lemma_sum_is_positive(zero, Double { bits: score::TRANSITION });
    let swung = match history.transition_magnitude {
        Some(magnitude) => {
            let part = double::quotient(magnitude, hundred);
            double::quotients_keep_order(magnitude, magnitude, hundred);
            double::products_keep_order(part, part, Double { bits: score::MAGNITUDE_WEIGHT });
            lemma_sum_is_positive(strong, score::magnitude_evidence(magnitude));
            double::sum(strong, score::magnitude_evidence(magnitude))
        },
        None => strong,
    };
    lemma_sum_is_positive(swung, Double { bits: score::ORIGIN });
    lemma_small(score::history_evidence(history));
}

/// A sum of what is not negative is not negative.
proof fn lemma_sum_is_positive(x: Double, y: Double)
    requires
        x.is_number() && !x.is_negative(),
        y.is_number() && !y.is_negative(),
    ensures
        double::sum(x, y).is_number(),
        !double::sum(x, y).is_negative(),
{
    rounding::lemma_units_grow(0, x.magnitude());
    rounding::lemma_units_grow(0, y.magnitude());
    if x.is_finite() && y.is_finite() {
        let total = x.count() + y.count();
        rounding::lemma_nearest_grows(0, total, 1);
    }
}

proof fn lemma_weights(signals: Seq<Signal>, n: int)
    requires
        n <= signals.len(),
    ensures
        score::weight_sum(signals, n).is_number(),
        !score::weight_sum(signals, n).is_negative(),
    decreases n,
{
    if n > 0 {
        lemma_weights(signals, n - 1);
        lemma_sum_is_positive(
            score::weight_sum(signals, n - 1),
            score::weight_of(signals[n - 1].kind@),
        );
    }
}

/// A number from zero to one.
pub open spec fn is_small(x: Double) -> bool {
    !x.is_negative() && x.is_finite() && x.count() <= rounding::unit()
}

proof fn lemma_small(x: Double)
    requires
        (Double { bits: double::ONE }).at_least(x),
        !x.is_negative(),
    ensures
        is_small(x),
        numbers::is_moderate(x),
{
    double::lemma_units_of_one();
    rounding::lemma_units_grow(x.magnitude(), double::ONE as int);
}

/// All of text, languages and history counts: together they are no less than any
/// of them, and where two of them are nothing they are what the third is.
pub proof fn all_evidence_counts(
    candidate: Candidate,
    analysis: LanguageAnalysis,
    history: HistoryAnalysis,
)
    requires
        !analysis.rust_percentage.is_negative() && analysis.rust_percentage.is_number(),
        history.transition_magnitude matches Some(m) ==> !m.is_negative() && m.is_number(),
        classify::kind_of(candidate, analysis, history) != ProjectKind::Rewrite,
    ensures
        ({
            let all = score::evidence_of(candidate, analysis, history);
            let t = score::text_evidence(candidate.signals@);
            let l = score::language_evidence(analysis);
            let h = score::history_evidence(history);
            &&& all.at_least(t) && all.at_least(l) && all.at_least(h)
            &&& l.count() == 0 && h.count() == 0 ==> all.count() == t.count()
            &&& t.count() == 0 && h.count() == 0 ==> all.count() == l.count()
            &&& t.count() == 0 && l.count() == 0 ==> all.count() == h.count()
        }),
{
    let t = score::text_evidence(candidate.signals@);
    let l = score::language_evidence(analysis);
    let h = score::history_evidence(history);
    lemma_parts_are_fractions(candidate.signals@, analysis, history);
    numbers::sums_are_accurate(t, l);
    let both = double::sum(t, l);
    score::evidence_is_capped(candidate.signals@, analysis, history);
    double::lemma_at_most_one(t);
    double::lemma_at_most_one(l);
    double::sums_are_bounded(t, l, 1, 1);
    double::lemma_units_of_one();
    assert(numbers::is_moderate(both));
    numbers::sums_are_accurate(both, h);
    let sum = double::sum(both, h);
    let all = double::clamped(sum);
    let one = Double { bits: double::ONE };
    lemma_by_count(sum, both);
    lemma_by_count(both, t);
    lemma_by_count(both, l);
    lemma_by_count(sum, h);
    if sum.above(one) {
        rounding::lemma_units_grow(one.magnitude(), sum.magnitude());
    }
}

/// Numbers that are not negative order as their counts do.
proof fn lemma_by_count(x: Double, y: Double)
    requires
        !x.is_negative() && x.is_finite(),
        !y.is_negative() && y.is_finite(),
        x.count() >= y.count(),
    ensures
        x.at_least(y),
{
    if x.magnitude() < y.magnitude() {
        rounding::lemma_units_grow(x.magnitude(), y.magnitude());
    }
}

/// A further signal never takes evidence away.
pub proof fn signals_never_weaken(signals: Seq<Signal>, signal: Signal)
    ensures
        score::text_evidence(signals.push(signal)).at_least(score::text_evidence(signals)),
{
    let n = signals.len() as int;
    lemma_weights(signals, n);
    lemma_same_weights(signals, signal, n);
    let before = score::weight_sum(signals, n);
    let weight = score::weight_of(signal.kind@);
    let after = double::sum(before, weight);
    assert(signals.push(signal)[n] == signal);
    lemma_sum_is_positive(before, weight);
    if before.is_finite() {
        rounding::lemma_units_grow(0, before.magnitude());
        rounding::lemma_units_grow(0, weight.magnitude());
        rounding::lemma_nearest_exact(before.magnitude());
        rounding::lemma_nearest_grows(before.count(), before.count() + weight.count(), 1);
    }
    assert(after.at_least(before));
}

proof fn lemma_same_weights(signals: Seq<Signal>, signal: Signal, n: int)
    requires
        n <= signals.len(),
    ensures
        score::weight_sum(signals.push(signal), n) == score::weight_sum(signals, n),
    decreases n,
{
    if n > 0 {
        lemma_same_weights(signals, signal, n - 1);
        assert(signals.push(signal)[n - 1] == signals[n - 1]);
    }
}

/// A history without a strong transition counts nothing; a strong one counts no less
/// with a swing, and no less with the language that it left.
pub proof fn only_strong_transitions_count(history: HistoryAnalysis)
    ensures
        !history.strong_transition ==> score::history_evidence(history).count() == 0,
        history.strong_transition && !(history.transition_magnitude matches Some(m) && (
        m.is_negative() || !m.is_number())) ==> score::history_evidence(history).at_least(
            Double { bits: score::TRANSITION },
        ),
{
    if history.strong_transition && !(history.transition_magnitude matches Some(m) && (
    m.is_negative() || !m.is_number())) {
        let zero = Double { bits: 0 };
        let hundred = Double { bits: double::HUNDRED };
        let first = Double { bits: score::TRANSITION };
        double::lemma_units_of_one();
        rounding::lemma_units_grow(first.magnitude(), double::ONE as int);
        numbers::sums_are_accurate(zero, first);
        let strong = double::sum(zero, first);
        lemma_by_count(strong, first);
        let swung = match history.transition_magnitude {
            Some(magnitude) => {
                let part = double::quotient(magnitude, hundred);
                double::quotients_keep_order(magnitude, magnitude, hundred);
                double::products_keep_order(part, part, Double { bits: score::MAGNITUDE_WEIGHT });
                let swing = score::magnitude_evidence(magnitude);
                lemma_small(swing);
                numbers::sums_are_accurate(strong, swing);
                double::sum(strong, swing)
            },
            None => strong,
        };
        lemma_by_count(swung, first);
        let origin = Double { bits: score::ORIGIN };
        lemma_small(origin);
        lemma_by_count(Double { bits: double::ONE }, strong);
        double::lemma_at_most_one(strong);
        if let Some(magnitude) = history.transition_magnitude {
            double::lemma_at_most_one(score::magnitude_evidence(magnitude));
            double::sums_are_bounded(strong, score::magnitude_evidence(magnitude), 1, 1);
        }
        assert(numbers::is_moderate(swung));
        numbers::sums_are_accurate(swung, origin);
        lemma_by_count(double::sum(swung, origin), first);
    }
}

/// With a displaced language, and where the project is related at all, the
/// confidence is the evidence, rounded: no cap holds it down.
pub proof fn displaced_languages_lift_the_cap(
    candidate: Candidate,
    analysis: LanguageAnalysis,
    history: HistoryAnalysis,
)
    requires
        analysis.original_language is Some,
        classify::kind_of(candidate, analysis, history) != ProjectKind::Neither,
    ensures
        ({
            let evidence = score::evidence_of(candidate, analysis, history);
            let confidence = score::confidence_of(candidate, analysis, history);
            -1001 * rounding::unit() <= 200_000 * (confidence.count() - evidence.count()) <= 1001
                * rounding::unit()
        }),
{
    let evidence = score::evidence_of(candidate, analysis, history);
    score::evidence_is_a_fraction(candidate, analysis, history);
    if !evidence.is_negative() {
        lemma_small(evidence);
        double::lemma_scales();
        numbers::rounding_stays_near(evidence, 100);
    } else {
        assert(evidence.magnitude() == 0);
        assert(evidence.count() == 0);
        lemma_negative_zero(evidence);
    }
}

proof fn lemma_negative_zero(x: Double)
    requires
        x.is_negative(),
        x.magnitude() == 0,
    ensures
        double::rounded_to(x, double::HUNDRED).count() == 0,
{
    let one = rounding::unit();
    let hundred = Double { bits: double::HUNDRED };
    double::lemma_units_of_one();
    double::lemma_scales();
    double::lemma_integer(100);
    assert(0 * (100 * one) == 0 && 0 * one == 0) by (nonlinear_arith);
    lemma_nothing_over(one);
    lemma_nothing_over(100 * one);
    lemma_nothing_over(1);
    let y = double::product(x, hundred);
    assert(y == x);
    assert((2 * 0 + one) / (2 * one) == 0) by (nonlinear_arith)
        requires
            one > 0,
    ;
    assert(double::whole(y) == x);
}

proof fn lemma_nothing_over(d: int)
    requires
        d > 0,
    ensures
        rounding::nearest(0, d) == 0,
{
    assert(0 < d * DENSE) by (nonlinear_arith)
        requires
            d > 0,
    ;
    assert(0int / d == 0 && 0int % d == 0) by (nonlinear_arith)
        requires
            d > 0,
    ;
}

// --- Pull requests and links -------------------------------------------------

/// The keywords of a title count three, two and one: a title with "rewrite" in it
/// goes before one with "port" alone, that before one with "rust" alone, and that
/// before one without any.
pub proof fn keywords_rank_titles(a: Seq<char>, b: Seq<char>)
    ensures
        model::contains(a, "rewrite"@) && !model::contains(b, "rewrite"@) && !(model::contains(
            b,
            "port"@,
        ) && model::contains(b, "rust"@)) ==> score::lower_relevance(a) > score::lower_relevance(b),
        model::contains(a, "port"@) && !model::contains(b, "rewrite"@) && !model::contains(
            b,
            "port"@,
        ) ==> score::lower_relevance(a) > score::lower_relevance(b),
        model::contains(a, "rust"@) && !model::contains(b, "rewrite"@) && !model::contains(
            b,
            "port"@,
        ) && !model::contains(b, "rust"@) ==> score::lower_relevance(a) > score::lower_relevance(b),
        !model::contains(a, "rewrite"@) && !model::contains(a, "port"@) && !model::contains(
            a,
            "rust"@,
        ) ==> score::lower_relevance(a) == 0,
        score::lower_relevance(a) <= 6,
{
}

/// A pull request represents the rewrite wherever there is one, and it is one whose
/// title no other outranks; among equals it is the first.
pub proof fn the_most_relevant_pull_request_represents_the_rewrite(
    signals: Seq<Signal>,
    pr: Option<RewritePr>,
    j: int,
)
    requires
        score::represents_rewrite(signals, pr),
        0 <= j < signals.len(),
        signals[j].kind@ == "pull-request"@,
    ensures
        pr is Some,
        exists|i: int|
            0 <= i < signals.len() && (#[trigger] signals[i]).kind@ == "pull-request"@
                && pr->0.title@ == classify::title_body(signals[i].detail@) && pr->0.url
                == signals[i].url && score::relevance(classify::title_body(signals[i].detail@))
                >= score::relevance(classify::title_body(signals[j].detail@)) && (j < i
                ==> score::relevance(classify::title_body(signals[i].detail@)) > score::relevance(
                classify::title_body(signals[j].detail@),
            )),
{
    assert(score::is_pull_request(signals[j]));
    let i = choose|i: int|
        #[trigger] score::is_best_pr(signals, i) && pr->0.title@ == classify::title_body(
            signals[i].detail@,
        ) && pr->0.url == signals[i].url;
    assert(signals[i].kind@ == "pull-request"@);
}

/// Issues and searches represent no rewrite.
pub proof fn only_pull_requests_represent_the_rewrite(signals: Seq<Signal>, pr: Option<RewritePr>)
    requires
        score::represents_rewrite(signals, pr),
        forall|j: int| 0 <= j < signals.len() ==> (#[trigger] signals[j]).kind@ != "pull-request"@,
    ensures
        pr is None,
{
    if pr is Some {
        let i = choose|i: int|
            #[trigger] score::is_best_pr(signals, i) && pr->0.title@ == classify::title_body(
                signals[i].detail@,
            ) && pr->0.url == signals[i].url;
        assert(signals[i].kind@ == "pull-request"@);
    }
}

/// Signal `i` is the first of this kind.
pub open spec fn is_first_of(signals: Seq<Signal>, kind: Seq<char>, i: int) -> bool {
    &&& 0 <= i < signals.len()
    &&& signals[i].kind@ == kind
    &&& forall|j: int| 0 <= j < i ==> (#[trigger] signals[j]).kind@ != kind
}

/// No signal is of this kind.
pub open spec fn has_none_of(signals: Seq<Signal>, kind: Seq<char>) -> bool {
    forall|j: int| 0 <= j < signals.len() ==> (#[trigger] signals[j]).kind@ != kind
}

proof fn lemma_first_url(signals: Seq<Signal>, kind: Seq<char>, k: int, i: int)
    requires
        0 <= k <= i,
        is_first_of(signals, kind, i),
    ensures
        score::url_of_kind(signals, kind, k) == Some(signals[i].url@),
    decreases i - k,
{
    if k < i {
        lemma_first_url(signals, kind, k + 1, i);
    }
}

proof fn lemma_no_url(signals: Seq<Signal>, kind: Seq<char>, k: int)
    requires
        0 <= k <= signals.len(),
        has_none_of(signals, kind),
    ensures
        score::url_of_kind(signals, kind, k) is None,
    decreases signals.len() - k,
{
    if k < signals.len() {
        lemma_no_url(signals, kind, k + 1);
    }
}

/// A project links to the first search that found it, or else to the first pull
/// request, or else to the first issue, or else to whatever came first.
pub proof fn sources_are_ranked(signals: Seq<Signal>, i: int)
    ensures
        is_first_of(signals, "repo-search"@, i) ==> score::source_of(signals) == Some(
            signals[i].url@,
        ),
        has_none_of(signals, "repo-search"@) && is_first_of(signals, "pull-request"@, i)
            ==> score::source_of(signals) == Some(signals[i].url@),
        has_none_of(signals, "repo-search"@) && has_none_of(signals, "pull-request"@)
            && is_first_of(signals, "issue"@, i) ==> score::source_of(signals) == Some(
            signals[i].url@,
        ),
        has_none_of(signals, "repo-search"@) && has_none_of(signals, "pull-request"@)
            && has_none_of(signals, "issue"@) && signals.len() > 0 ==> score::source_of(signals)
            == Some(signals[0].url@),
        signals.len() == 0 ==> score::source_of(signals) is None,
{
    if has_none_of(signals, "repo-search"@) {
        lemma_no_url(signals, "repo-search"@, 0);
    }
    if has_none_of(signals, "pull-request"@) {
        lemma_no_url(signals, "pull-request"@, 0);
    }
    if has_none_of(signals, "issue"@) {
        lemma_no_url(signals, "issue"@, 0);
    }
    if is_first_of(signals, "repo-search"@, i) {
        lemma_first_url(signals, "repo-search"@, 0, i);
    }
    if is_first_of(signals, "pull-request"@, i) {
        lemma_first_url(signals, "pull-request"@, 0, i);
    }
    if is_first_of(signals, "issue"@, i) {
        lemma_first_url(signals, "issue"@, 0, i);
    }
}

// --- Rewrites ----------------------------------------------------------------

/// A rewrite has its bonus on top of its evidence, up to certainty: it is never
/// without the bonus, and has no more than that where nothing else counts.
pub proof fn rewrites_have_their_bonus(
    candidate: Candidate,
    analysis: LanguageAnalysis,
    history: HistoryAnalysis,
)
    requires
        !analysis.rust_percentage.is_negative() && analysis.rust_percentage.is_number(),
        history.transition_magnitude matches Some(m) ==> !m.is_negative() && m.is_number(),
        classify::kind_of(candidate, analysis, history) == ProjectKind::Rewrite,
    ensures
        ({
            let all = score::evidence_of(candidate, analysis, history);
            let t = score::text_evidence(candidate.signals@);
            let l = score::language_evidence(analysis);
            let h = score::history_evidence(history);
            let bonus = Double { bits: score::REWRITE_CONFIDENCE_BONUS };
            &&& all.at_least(bonus)
            &&& all.at_least(t) && all.at_least(l) && all.at_least(h)
            &&& t.count() == 0 && l.count() == 0 && h.count() == 0 ==> all.count()
                == bonus.count()
        }),
        (Double { bits: score::REWRITE_CONFIDENCE_BONUS }).above(Double { bits: 0 }),
{
    let t = score::text_evidence(candidate.signals@);
    let l = score::language_evidence(analysis);
    let h = score::history_evidence(history);
    let bonus = Double { bits: score::REWRITE_CONFIDENCE_BONUS };
    let one = Double { bits: double::ONE };
    lemma_parts_are_fractions(candidate.signals@, analysis, history);
    numbers::sums_are_accurate(t, l);
    let both = double::sum(t, l);
    score::evidence_is_capped(candidate.signals@, analysis, history);
    double::lemma_at_most_one(t);
    double::lemma_at_most_one(l);
    double::sums_are_bounded(t, l, 1, 1);
    double::lemma_units_of_one();
    assert(numbers::is_moderate(both));
    numbers::sums_are_accurate(both, h);
    let sum = double::sum(both, h);
    let plain = double::clamped(sum);
    lemma_by_count(sum, both);
    lemma_by_count(both, t);
    lemma_by_count(both, l);
    lemma_by_count(sum, h);
    if sum.above(one) {
        rounding::lemma_units_grow(one.magnitude(), sum.magnitude());
    }
    rounding::lemma_units_grow(0, plain.magnitude());
    rounding::lemma_units_grow(plain.magnitude(), one.magnitude());
    lemma_small(bonus);
    assert(numbers::is_moderate(plain));
    numbers::sums_are_accurate(plain, bonus);
    let raised = double::sum(plain, bonus);
    lemma_by_count(raised, plain);
    lemma_by_count(raised, bonus);
    let all = score::evidence_of(candidate, analysis, history);
    assert(one.at_least(t) && one.at_least(l) && one.at_least(h));
    assert(plain.at_least(t) && plain.at_least(l) && plain.at_least(h));
    assert(all == double::capped(raised, double::ONE));
    if t.count() == 0 && l.count() == 0 && h.count() == 0 {
        assert(sum.count() == 0);
        if sum.magnitude() > 0 {
            rounding::lemma_units_grow(0, sum.magnitude());
        }
        assert(plain == sum);
        assert(raised.count() == bonus.count());
        lemma_by_count(bonus, raised);
        assert(one.at_least(raised));
    }
}

/// A single signal counts what it weighs, and none count for nothing.
pub proof fn signals_count_their_weight(signal: Signal)
    ensures
        score::text_evidence(seq![signal]) == score::weight_of(signal.kind@),
        score::text_evidence(Seq::empty()).count() == 0,
{
    let zero = Double { bits: 0 };
    let weight = score::weight_of(signal.kind@);
    rounding::lemma_units_grow(0, weight.magnitude());
    rounding::lemma_nearest_exact(weight.magnitude());
    assert(rounding::units(0) == 0);
    reveal_with_fuel(score::weight_sum, 2);
    assert(seq![signal][0] == signal);
    assert(score::weight_sum(seq![signal], 0) == zero);
    assert(double::sum(zero, weight) == weight);
    assert(score::weight_sum(seq![signal], 1) == weight);
}

} // verus!
