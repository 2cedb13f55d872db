//! Laws of scored projects, and of the decisions of a scan about them.

use crate::detect::classify;
use crate::detect::classify::ProjectKind;
use crate::detect::commits::LanguageAnalysis;
use crate::detect::enrich::CommitEnrichment;
use crate::detect::score;
use crate::detect::transitions::HistoryAnalysis;
use crate::double;
use crate::double::Double;
use crate::github;
use crate::laws::log;
use crate::laws::numbers;
use crate::laws::texts;
use crate::pipeline;
use crate::pipeline::Fate;
use crate::rounding;
use crate::store;
use crate::text_model as model;
use crate::text_model::CharClass;
use crate::types::{Candidate, Project};
use vstd::prelude::*;
use vstd::string::*;

verus! {

// --- Scored projects ---------------------------------------------------------

/// A scored project holds what is known of its candidate: the name behind its owner,
/// its link, its counts and its signals.
pub proof fn projects_hold_their_candidate(
    p: Project,
    candidate: Candidate,
    owner: Seq<char>,
    name: Seq<char>,
)
    requires
        score::keeps_candidate(p, candidate),
        candidate.full_name@ == owner.push('/') + name,
        log::lacks(name, '/'),
    ensures
        p.name@ == name,
        candidate.html_url@.len() > 0 ==> p.repo_url@ == candidate.html_url@,
        candidate.html_url@.len() == 0 ==> p.repo_url@ == "https://github.com/"@
            + candidate.full_name@,
        p.description == candidate.description,
        p.stars == candidate.stars,
        p.forks == candidate.forks,
        p.open_issues == candidate.open_issues,
        p.open_prs == candidate.open_prs,
        p.signals@ == candidate.signals@,
        candidate.signals@.len() == 0 ==> p.source_url@ == p.repo_url@,
{
    texts::pieces_are_those_of_the_parts(owner, '/', name, CharClass::Only('/'));
    log::lemma_one_piece(name, '/');
    let all = model::split(owner, CharClass::Only('/')) + seq![name];
    assert(all.last() == name);
}

/// A scored project holds the metrics that it is given, each in its place.
pub proof fn projects_hold_their_metrics(p: Project, e: CommitEnrichment)
    requires
        score::keeps_enrichment(p, e),
    ensures
        p.lines_added == e.lines_added,
        p.lines_removed == e.lines_removed,
        p.rewrite_velocity == e.rewrite_velocity,
        p.ai_assist_score == e.ai_assist_score,
        p.ai_agents@ == e.ai_agents@,
        p.rewrite_duration_days == e.rewrite_duration_days,
        p.commit_count == e.commit_count,
{
}

/// Of a history without a strong transition a project holds the swing and the number
/// of commits alone; of one without commits, no number.
pub proof fn projects_hold_their_history(p: Project, h: HistoryAnalysis)
    requires
        score::keeps_history(p, h),
    ensures
        p.transition_magnitude == h.transition_magnitude,
        h.total_commits > 0 ==> p.total_commits_analyzed == Some(h.total_commits),
        h.total_commits == 0 ==> p.total_commits_analyzed is None,
        h.strong_transition ==> p.history_from_language == h.from_language
            && p.history_rust_before == h.rust_pct_before && p.history_rust_after
            == h.rust_pct_after,
        !h.strong_transition ==> p.history_from_language is None && p.history_rust_before is None
            && p.history_rust_after is None,
{
}

/// A kind is stored by its word and read back from it; what is neither is dropped.
pub proof fn kinds_are_read_back(kind: ProjectKind)
    ensures
        kind == ProjectKind::Rewrite ==> kind.word() == "rewrite"@ && pipeline::fate(kind.word())
            == Fate::Rewrite,
        kind == ProjectKind::Replacement ==> kind.word() == "replacement"@ && pipeline::fate(
            kind.word(),
        ) == Fate::Replacement,
        kind == ProjectKind::Neither ==> kind.word() == "neither"@ && pipeline::fate(kind.word())
            == Fate::Dropped,
{
    reveal_strlit("rewrite");
    reveal_strlit("replacement");
    reveal_strlit("neither");
    assert("rewrite"@[0] == 'r' && "neither"@[0] == 'n');
    assert("rewrite"@.len() == 7 && "replacement"@.len() == 11 && "neither"@.len() == 7);
}

/// A row that is scored anew shows its languages as they are stored: Rust leads
/// where nothing was displaced, or where Rust has at least half.
pub proof fn languages_are_read_back(p: Project, a: LanguageAnalysis)
    requires
        pipeline::is_analysis_of(p, a),
    ensures
        a.rust_percentage == p.rust_percentage,
        a.original_language == p.original_language,
        a.rust_is_primary <==> p.original_language is None || p.rust_percentage.at_least(
            double::integer(50),
        ),
{
    vstd::arithmetic::power2::lemma2_to64_rest();
    double::lemma_constant(pipeline::HALF, 0x19_0000_0000_0000, 1027, 50, 47);
}

/// A row that is scored anew keeps its counts and its signals, takes the metrics and
/// the swing that it is given, and has no confidence where it is neither.
pub proof fn rescored_rows_keep_their_counts(
    p: Project,
    enrichment: CommitEnrichment,
    history: HistoryAnalysis,
    now: Seq<char>,
    row: Project,
)
    requires
        pipeline::is_rescored(p, enrichment, history, now, row),
    ensures
        row.stars == p.stars,
        row.forks == p.forks,
        row.open_issues == p.open_issues,
        row.open_prs == p.open_prs,
        row.signals@ == p.signals@,
        row.description == p.description,
        row.lines_added == enrichment.lines_added,
        row.lines_removed == enrichment.lines_removed,
        row.rewrite_velocity == enrichment.rewrite_velocity,
        row.ai_assist_score == enrichment.ai_assist_score,
        row.ai_agents@ == enrichment.ai_agents@,
        row.rewrite_duration_days == enrichment.rewrite_duration_days,
        row.commit_count == enrichment.commit_count,
        row.transition_magnitude == history.transition_magnitude,
        row.history_status is None,
        row.first_detected@ == now && row.last_seen@ == now,
        row.project_kind@ == "rewrite"@ || row.project_kind@ == "replacement"@ || row.project_kind@
            == "neither"@,
        row.project_kind@ == "neither"@ ==> row.confidence.count() == 0,
{
    let (c0, a0) = choose|c: Candidate, a: LanguageAnalysis|
        #![trigger pipeline::is_candidate_of(p, c), pipeline::is_analysis_of(p, a)]
        {
            &&& pipeline::is_candidate_of(p, c)
            &&& pipeline::is_analysis_of(p, a)
            &&& score::keeps_candidate(row, c)
            &&& score::keeps_enrichment(row, enrichment)
            &&& score::keeps_history(row, history)
            &&& score::has_no_attempt(row)
            &&& model::opt_view(row.original_language) == score::original_language_of(a, history)
            &&& row.rust_percentage == double::rounded_to(a.rust_percentage, double::HUNDRED)
            &&& row.confidence == score::confidence_of(c, a, history)
            &&& row.project_kind@ == classify::kind_of(c, a, history).word()
            &&& row.unsafe_percentage is None
            &&& row.first_detected@ == now
            &&& row.last_seen@ == now
            &&& !row.exemplar
        };
    kinds_are_read_back(classify::kind_of(c0, a0, history));
    double::lemma_scales();
    double::lemma_zero_is_round(double::HUNDRED);
    reveal_strlit("rewrite");
    reveal_strlit("replacement");
    reveal_strlit("neither");
    assert("rewrite"@[0] == 'r' && "neither"@[0] == 'n');
    assert("rewrite"@.len() == 7 && "replacement"@.len() == 11 && "neither"@.len() == 7);
    assert(rounding::units(0) == 0);
}

// --- Weights -----------------------------------------------------------------

/// A curated exemplar weighs the most, then what a repository says of itself, then a
/// pull request, then an issue; any other signal weighs less than these, and more
/// than nothing.
pub proof fn signals_are_weighed(kind: Seq<char>)
    ensures
        ({
            let (exemplar, search) = (score::weight_of("exemplar"@), score::weight_of(
                "repo-search"@,
            ));
            let (pull_request, issue) = (score::weight_of("pull-request"@), score::weight_of(
                "issue"@,
            ));
            &&& exemplar.above(search)
            &&& search.above(pull_request)
            &&& pull_request.above(issue)
            &&& kind != "exemplar"@ && kind != "repo-search"@ && kind != "pull-request"@ && kind
                != "issue"@ ==> issue.above(score::weight_of(kind)) && score::weight_of(kind).above(
                Double { bits: 0 },
            )
        }),
{
    reveal_strlit("exemplar");
    reveal_strlit("repo-search");
    reveal_strlit("pull-request");
    reveal_strlit("issue");
    assert("exemplar"@.len() == 8 && "repo-search"@.len() == 11 && "pull-request"@.len() == 12
        && "issue"@.len() == 5);
}

/// Of two projects that are alike but for it, a larger share of Rust never counts
/// less.
pub proof fn more_rust_counts_no_less(less: LanguageAnalysis, more: LanguageAnalysis)
    requires
        !less.rust_percentage.is_negative(),
        !more.rust_percentage.is_negative(),
        less.rust_percentage.is_finite(),
        double::integer(100).at_least(more.rust_percentage),
        more.rust_percentage.at_least(less.rust_percentage),
        less.rust_is_primary == more.rust_is_primary,
        less.original_language is Some == more.original_language is Some,
    ensures
        score::language_evidence(more).at_least(score::language_evidence(less)),
{
    let displaced = less.original_language is Some;
    let hundred = Double { bits: double::HUNDRED };
    double::lemma_scales();
    double::lemma_integer(100);
    let weight = Double {
        bits: if displaced {
            score::DISPLACED_WEIGHT
        } else {
            score::SHARE_WEIGHT
        },
    };
    let primary = Double {
        bits: if displaced {
            score::DISPLACED_PRIMARY
        } else {
            score::PRIMARY
        },
    };
    let (x, y) = (
        double::quotient(less.rust_percentage, hundred),
        double::quotient(more.rust_percentage, hundred),
    );
    double::quotients_keep_order(less.rust_percentage, more.rust_percentage, hundred);
    double::quotients_keep_order(more.rust_percentage, more.rust_percentage, hundred);
    double::products_keep_order(x, y, weight);
    double::products_keep_order(y, y, weight);
    let (a, b) = (double::product(x, weight), double::product(y, weight));
    lemma_sums_keep_order(a, b, primary);
}

/// Adding the same keeps numbers that are not negative in order.
proof fn lemma_sums_keep_order(less: Double, more: Double, by: Double)
    requires
        !less.is_negative() && less.is_number(),
        !more.is_negative(),
        more.at_least(less),
        by.is_positive(),
    ensures
        double::sum(more, by).at_least(double::sum(less, by)),
{
    rounding::lemma_units_grow(less.magnitude(), more.magnitude());
    rounding::lemma_units_grow(0, less.magnitude());
    rounding::lemma_units_grow(0, by.magnitude());
    let (a, b) = (less.count() + by.count(), more.count() + by.count());
    rounding::lemma_nearest_grows(a, b, 1);
    rounding::lemma_nearest_grows(0, a, 1);
}

/// Without any Rust only its lead counts, if it has it: more where a language was
/// displaced than where none was.
pub proof fn leads_count(a: LanguageAnalysis)
    requires
        a.rust_percentage == (Double { bits: 0 }),
    ensures
        !a.rust_is_primary ==> score::language_evidence(a) == (Double { bits: 0 }),
        a.rust_is_primary && a.original_language is Some ==> score::language_evidence(a) == (
        Double { bits: 0x3fc3_3333_3333_3333 }),
        a.rust_is_primary && a.original_language is None ==> score::language_evidence(a) == (
        Double { bits: 0x3fa9_9999_9999_999a }),
{
    let zero = Double { bits: 0 };
    let hundred = Double { bits: double::HUNDRED };
    double::lemma_units_of_one();
    rounding::lemma_units_grow(0, hundred.magnitude());
    assert(rounding::units(0) == 0);
    lemma_nothing(rounding::units(hundred.magnitude()));
    lemma_nothing(rounding::unit());
    assert(0 * rounding::unit() == 0);
    assert(double::quotient(zero, hundred) == zero);
    assert(forall|w: int| #[trigger] (0 * w) == 0);
    let some = Double { bits: score::DISPLACED_WEIGHT };
    let none = Double { bits: score::SHARE_WEIGHT };
    assert(double::product(zero, some) == zero);
    assert(double::product(zero, none) == zero);
    rounding::lemma_nearest_exact(score::DISPLACED_PRIMARY as int);
    rounding::lemma_nearest_exact(score::PRIMARY as int);
    rounding::lemma_units_grow(0, score::DISPLACED_PRIMARY as int);
    rounding::lemma_units_grow(0, score::PRIMARY as int);
    assert(double::sum(zero, Double { bits: score::DISPLACED_PRIMARY }) == (Double {
        bits: score::DISPLACED_PRIMARY,
    }));
    assert(double::sum(zero, Double { bits: score::PRIMARY }) == (Double { bits: score::PRIMARY }));
}

proof fn lemma_nothing(d: int)
    requires
        d > 0,
    ensures
        rounding::nearest(0, d) == 0,
{
    assert(0int / d == 0 && 0int % d == 0) by (nonlinear_arith)
        requires
            d > 0,
    ;
}

/// A strong transition counts, and counts more where it names the language that it
/// left.
pub proof fn named_origins_count_more(
    plain: HistoryAnalysis,
    named: HistoryAnalysis,
)
    requires
        plain.strong_transition && named.strong_transition,
        plain.transition_magnitude is None && named.transition_magnitude is None,
        plain.from_language is None && named.from_language is Some,
    ensures
        score::history_evidence(named).above(score::history_evidence(plain)),
        score::history_evidence(plain).above(Double { bits: 0 }),
{
    let zero = Double { bits: 0 };
    let step = Double { bits: score::TRANSITION };
    let origin = Double { bits: score::ORIGIN };
    let strong = double::sum(zero, step);
    double::lemma_units_of_one();
    rounding::lemma_units_grow(0, step.magnitude());
    rounding::lemma_units_grow(0, origin.magnitude());
    rounding::lemma_nearest_exact(step.magnitude());
    assert(rounding::units(0) == 0);
    assert(strong == step);
    // The one is four times the other.
    reveal_with_fuel(rounding::units, 3);
    assert(step.count() == 4 * origin.count());
    let named_sum = double::sum(step, origin);
    rounding::lemma_units_grow(step.magnitude(), double::ONE as int);
    rounding::lemma_units_grow(origin.magnitude(), double::ONE as int);
    numbers::sums_are_accurate(step, origin);
    assert(named_sum.count() > step.count());
    if named_sum.magnitude() <= step.magnitude() {
        rounding::lemma_units_grow(named_sum.magnitude(), step.magnitude());
    }
}

// --- Scans -------------------------------------------------------------------

/// A scan keeps what reaches the threshold, and drops what is below it.
pub proof fn scans_keep_what_reaches_the_threshold(p: Project, least: Double)
    ensures
        p.confidence.at_least(least) ==> pipeline::keeps(p, least),
        least.above(p.confidence) ==> !pipeline::keeps(p, least),
{
}

/// A project that was detected before keeps that date, and nothing else of it
/// changes.
pub proof fn first_dates_are_kept(p: Project, first: Option<String>, r: Project)
    requires
        pipeline::is_dated(p, first, r),
    ensures
        first is Some ==> r.first_detected == first->0,
        first is None ==> r.first_detected == p.first_detected,
        r.last_seen == p.last_seen,
        r.confidence == p.confidence,
        r.repo_url == p.repo_url,
        r.project_kind == p.project_kind,
        r.signals@ == p.signals@,
{
}

/// What is asked for is measured where Rust leads, a history with commits is done,
/// and an exemplar with a history is passed over unless it is forced.
pub proof fn scans_do_what_is_left(
    asked: bool,
    a: LanguageAnalysis,
    h: HistoryAnalysis,
    existing: Project,
    force: bool,
)
    ensures
        pipeline::is_measured(asked, a) <==> asked && a.rust_is_primary,
        h.total_commits == 0 || !asked ==> !pipeline::is_done(asked, h),
        h.total_commits >= 1 && asked ==> pipeline::is_done(asked, h),
        !pipeline::is_skipped(None, force),
        !pipeline::is_skipped(Some(existing), true),
        pipeline::is_skipped(Some(existing), false) <==> (
        existing.history_status matches Some(status) && status@ == "ok"@),
{
}

/// The candidate of a curated exemplar is found under its link, with one signal.
pub proof fn exemplars_are_candidates(slug: Seq<char>, c: Candidate)
    requires
        pipeline::is_exemplar_candidate(slug, c),
    ensures
        c.full_name@ == slug,
        c.html_url@ == "https://github.com/"@ + slug,
        score::weight_of(c.signals@[0].kind@).above(score::weight_of("repo-search"@)),
        github::needs_metadata(c),
{
    signals_are_weighed(c.signals@[0].kind@);
}

/// A history without metrics gives none, and one with any gives them all.
pub proof fn histories_give_their_metrics(h: HistoryAnalysis, e: CommitEnrichment)
    requires
        pipeline::is_history_enrichment(h, e),
    ensures
        h.enrichment.lines_added is Some ==> e.lines_added == h.enrichment.lines_added
            && e.lines_removed == h.enrichment.lines_removed && e.commit_count
            == h.enrichment.commit_count && e.rewrite_velocity == h.enrichment.rewrite_velocity,
        h.enrichment.lines_added is None && h.enrichment.ai_agents@.len() == 0
            ==> e.lines_added is None && e.lines_removed is None && e.commit_count is None,
        e.ai_agents@ == h.enrichment.ai_agents@,
{
}

/// An attempt at a history is on record with what came of it, and changes nothing
/// else.
pub proof fn attempts_are_on_record(
    p: Project,
    status: Seq<char>,
    error: Option<Seq<char>>,
    at: Seq<char>,
    attempts: u32,
    r: Project,
)
    requires
        store::is_attempted(p, status, error, at, attempts, r),
    ensures
        r.history_status matches Some(s) && s@ == status,
        r.history_attempted_at matches Some(s) && s@ == at,
        r.history_attempts == Some(attempts),
        error is None ==> r.history_error is None,
        error matches Some(e) ==> (r.history_error matches Some(s) && s@ == e),
        r.repo_url == p.repo_url,
        r.confidence == p.confidence,
        r.lines_added == p.lines_added,
        r.first_detected == p.first_detected,
        r.last_seen == p.last_seen,
        r.transition_magnitude == p.transition_magnitude,
{
}

// --- Shards ------------------------------------------------------------------

/// The hash of a link takes in byte after byte.
pub proof fn hashes_take_in_every_byte(bytes: Seq<u8>, b: u8)
    ensures
        pipeline::fnv(Seq::empty()) == 0xcbf2_9ce4_8422_2325u64,
        pipeline::fnv(bytes.push(b)) as int == ((pipeline::fnv(bytes) ^ (b as u64)) as int
            * 0x100_0000_01b3) % 0x1_0000_0000_0000_0000,
{
    assert(bytes.push(b).drop_last() =~= bytes);
}

// --- Merging -----------------------------------------------------------------

/// A history differs where its status, its date or its swing does, and from itself
/// only where its swing is no number.
pub proof fn differences_are_noticed(a: Project, b: Project)
    ensures
        model::opt_view(a.history_status) != model::opt_view(b.history_status)
            ==> pipeline::history_differs(a, b),
        model::opt_view(a.history_attempted_at) != model::opt_view(b.history_attempted_at)
            ==> pipeline::history_differs(a, b),
        (a.transition_magnitude is Some) != (b.transition_magnitude is Some)
            ==> pipeline::history_differs(a, b),
        a.transition_magnitude is None ==> !pipeline::history_differs(a, a),
        a.transition_magnitude matches Some(x) ==> (x.is_number() ==> !pipeline::history_differs(
            a,
            a,
        )),
{
}

/// After a merge every repository has the row that it had, but for the one that is
/// merged, which has the better of the two.
pub proof fn merging_keeps_the_better_row(
    before: Seq<Project>,
    project: Project,
    after: Seq<Project>,
    i: int,
)
    requires
        0 <= i,
        pipeline::is_merged(before, project, after, i),
    ensures
        i < after.len(),
        forall|j: int| 0 <= j < before.len() && j != i ==> #[trigger] after[j] == before[j],
        after[i].repo_url@ == project.repo_url@,
        i == before.len() ==> after[i].history_status == project.history_status
            && after[i].confidence == project.confidence,
        i < before.len() ==> after.len() == before.len() && (after[i].history_status
            == project.history_status || after[i].history_status == before[i].history_status),
{
}

} // verus!
