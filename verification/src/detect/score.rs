//! Composite confidence scoring.
//!
//! Confidence combines two independent lines of evidence:
//!   * textual/heuristic signals (what people *say* about the project), and
//!   * language composition (what the repo *actually* contains).
//!
//! Neither alone is decisive: a repo can talk about a rewrite that never
//! happened, or be mostly Rust for unrelated reasons. Requiring both to line up
//! produces a far more trustworthy score.

use crate::detect::classify;
use crate::detect::classify::ProjectKind;
use crate::detect::commits;
use crate::detect::commits::LanguageAnalysis;
use crate::detect::enrich::CommitEnrichment;
use crate::detect::transitions::HistoryAnalysis;
use crate::double;
use crate::double::Double;
use crate::rounding;
use crate::text;
use crate::text_model as model;
use crate::types::{Candidate, Project, RewritePr, Signal};
use vstd::prelude::*;
use vstd::string::*;

verus! {

/// Default scan threshold, as a double: 0.15.
pub const DEFAULT_MIN_CONFIDENCE: u64 = 0x3fc3_3333_3333_3333;

/// When there is no substantial displaced language, confidence is capped here
/// unless the repo explicitly advertises replacing an existing tool, as a
/// double: 0.12.
pub const NO_DISPLACED_CAP: u64 = 0x3fbe_b851_eb85_1eb8;

/// Confidence cap for projects that lack displaced-language bytes but carry
/// strong replacement/migration wording (e.g. ripgrep, or an already-100%-Rust
/// rewrite), as a double: 0.55.
pub const REPLACEMENT_REWRITE_CAP: u64 = 0x3fe1_9999_9999_999a;

/// Small confidence edge granted to genuine **Rewrites** (a project's own code
/// migrated to Rust), which are the tool's primary focus: 0.05. It is
/// deliberately modest — a nudge that surfaces true rewrites above equivalent
/// replacements rather than fabricated certainty — and is applied *before* the
/// no-displaced-language cap, so a rewrite without displaced bytes still can't
/// exceed [`REPLACEMENT_REWRITE_CAP`].
pub const REWRITE_CONFIDENCE_BONUS: u64 = 0x3fa9_9999_9999_999a;

/// Maximum share of the total score attributable to text signals alone: 0.60.
pub const TEXT_CAP: u64 = 0x3fe3_3333_3333_3333;

/// Maximum share attributable to language composition alone: 0.50.
pub const LANG_CAP: u64 = 0x3fe0_0000_0000_0000;

/// Maximum share attributable to commit-history transition evidence: 0.35.
pub const HISTORY_CAP: u64 = 0x3fd6_6666_6666_6666;

/// What Rust's share weighs with a displaced language, and without: 0.4 and 0.1.
pub const DISPLACED_WEIGHT: u64 = 0x3fd9_9999_9999_999a;

pub const SHARE_WEIGHT: u64 = 0x3fb9_9999_9999_999a;

/// What Rust as the largest language counts with a displaced language, and
/// without: 0.15 and 0.05.
pub const DISPLACED_PRIMARY: u64 = 0x3fc3_3333_3333_3333;

pub const PRIMARY: u64 = 0x3fa9_9999_9999_999a;

/// What a strong transition counts: 0.20.
pub const TRANSITION: u64 = 0x3fc9_9999_9999_999a;

/// What the swing of a strong transition weighs, and the most that it counts: 0.25
/// and 0.15.
pub const MAGNITUDE_WEIGHT: u64 = 0x3fd0_0000_0000_0000;

pub const MAGNITUDE_CAP: u64 = 0x3fc3_3333_3333_3333;

/// What the language that a strong transition left counts: 0.05.
pub const ORIGIN: u64 = 0x3fa9_9999_9999_999a;

/// Per-signal contribution to the textual evidence score.
pub open spec fn weight_of(kind: Seq<char>) -> Double {
    if kind == "repo-search"@ {
        Double { bits: 0x3fd6_6666_6666_6666 }
    } else if kind == "exemplar"@ {
        Double { bits: 0x3fd9_9999_9999_999a }
    } else if kind == "pull-request"@ {
        Double { bits: 0x3fc9_9999_9999_999a }
    } else if kind == "issue"@ {
        Double { bits: 0x3fb9_9999_9999_999a }
    } else {
        Double { bits: 0x3fa9_9999_9999_999a }
    }
}

/// Per-signal contribution to the textual evidence score.
pub fn signal_weight(kind: &str) -> (r: Double)
    ensures
        r == weight_of(kind@),
{
    if text::equal(kind, "repo-search") {
        // The repo itself advertising a rewrite is the strongest text signal: 0.35.
        Double { bits: 0x3fd6_6666_6666_6666 }
    } else if text::equal(kind, "exemplar") {
        // Curated exemplar: 0.40.
        Double { bits: 0x3fd9_9999_9999_999a }
    } else if text::equal(kind, "pull-request") {
        // An open/merged PR about a rewrite is strong corroboration: 0.20.
        Double { bits: 0x3fc9_9999_9999_999a }
    } else if text::equal(kind, "issue") {
        // A mere issue is weaker (could be a wishlist item): 0.10.
        Double { bits: 0x3fb9_9999_9999_999a }
    } else {
        // 0.05.
        Double { bits: 0x3fa9_9999_9999_999a }
    }
}

/// The weights of the first `n` signals together.
pub open spec fn weight_sum(signals: Seq<Signal>, n: int) -> Double
    decreases n,
{
    if n <= 0 {
        Double { bits: 0 }
    } else {
        double::sum(weight_sum(signals, n - 1), weight_of(signals[n - 1].kind@))
    }
}

/// What the signals count: their weights, up to the cap.
pub open spec fn text_evidence(signals: Seq<Signal>) -> Double {
    double::capped(weight_sum(signals, signals.len() as int), TEXT_CAP)
}

/// What the language composition counts. It scales with Rust's share when a
/// displaced language is present; a Rust-heavy repo alone does not prove a rewrite
/// happened.
pub open spec fn language_evidence(analysis: LanguageAnalysis) -> Double {
    let displaced = analysis.original_language is Some;
    let share = double::quotient(analysis.rust_percentage, Double { bits: double::HUNDRED });
    let scaled = double::product(
        share,
        Double {
            bits: if displaced {
                DISPLACED_WEIGHT
            } else {
                SHARE_WEIGHT
            },
        },
    );
    let primary = Double {
        bits: if displaced {
            DISPLACED_PRIMARY
        } else {
            PRIMARY
        },
    };
    double::capped(
        if analysis.rust_is_primary {
            double::sum(scaled, primary)
        } else {
            scaled
        },
        LANG_CAP,
    )
}

/// What the swing of a transition counts.
pub open spec fn magnitude_evidence(magnitude: Double) -> Double {
    double::capped(
        double::product(
            double::quotient(magnitude, Double { bits: double::HUNDRED }),
            Double { bits: MAGNITUDE_WEIGHT },
        ),
        MAGNITUDE_CAP,
    )
}

/// What the commit history counts: only a *rising* Rust share (real migration) is
/// credited.
pub open spec fn history_evidence(history: HistoryAnalysis) -> Double {
    if !history.strong_transition {
        double::capped(Double { bits: 0 }, HISTORY_CAP)
    } else {
        let strong = double::sum(Double { bits: 0 }, Double { bits: TRANSITION });
        let swung = match history.transition_magnitude {
            Some(magnitude) => double::sum(strong, magnitude_evidence(magnitude)),
            None => strong,
        };
        let named = if history.from_language is Some {
            double::sum(swung, Double { bits: ORIGIN })
        } else {
            swung
        };
        double::capped(named, HISTORY_CAP)
    }
}

/// All evidence together, between zero and one.
pub open spec fn evidence_of(
    candidate: Candidate,
    analysis: LanguageAnalysis,
    history: HistoryAnalysis,
) -> Double {
    let all = double::clamped(
        double::sum(
            double::sum(text_evidence(candidate.signals@), language_evidence(analysis)),
            history_evidence(history),
        ),
    );
    if classify::kind_of(candidate, analysis, history) == ProjectKind::Rewrite {
        double::capped(
            double::sum(all, Double { bits: REWRITE_CONFIDENCE_BONUS }),
            double::ONE,
        )
    } else {
        all
    }
}

/// The confidence in a project, between zero and one, rounded to hundredths.
///
/// Without a real displaced language, only strong replacement/migration signals
/// justify surfacing the project; incidental "rewrite in Rust" discovery hits
/// are capped below the default threshold. Projects with no genuine
/// cross-language provenance get none at all.
pub open spec fn confidence_of(
    candidate: Candidate,
    analysis: LanguageAnalysis,
    history: HistoryAnalysis,
) -> Double {
    let evidence = evidence_of(candidate, analysis, history);
    let confidence = if classify::kind_of(candidate, analysis, history) == ProjectKind::Neither {
        Double { bits: 0 }
    } else if analysis.original_language is Some {
        evidence
    } else if classify::strong_signal(candidate) {
        double::capped(evidence, REPLACEMENT_REWRITE_CAP)
    } else {
        double::capped(evidence, NO_DISPLACED_CAP)
    };
    double::rounded_to(confidence, double::HUNDRED)
}

fn weigh_signals(signals: &Vec<Signal>) -> (r: Double)
    ensures
        r == text_evidence(signals@),
{
    let mut total = Double { bits: 0 };
    let mut i: usize = 0;
    while i < signals.len()
        invariant
            i <= signals@.len(),
            total == weight_sum(signals@, i as int),
        decreases signals@.len() - i,
    {
        total = double::plus(total, signal_weight(signals[i].kind.as_str()));
        i += 1;
    }
    double::cap_at(total, TEXT_CAP)
}

fn weigh_languages(analysis: &LanguageAnalysis) -> (r: Double)
    ensures
        r == language_evidence(*analysis),
{
    let displaced = analysis.original_language.is_some();
    let share = double::over(analysis.rust_percentage, Double { bits: double::HUNDRED });
    let weight = Double {
        bits: if displaced {
            DISPLACED_WEIGHT
        } else {
            SHARE_WEIGHT
        },
    };
    let primary = Double {
        bits: if displaced {
            DISPLACED_PRIMARY
        } else {
            PRIMARY
        },
    };
    let scaled = double::times(share, weight);
    if analysis.rust_is_primary {
        double::cap_at(double::plus(scaled, primary), LANG_CAP)
    } else {
        double::cap_at(scaled, LANG_CAP)
    }
}

fn weigh_history(history: &HistoryAnalysis) -> (r: Double)
    ensures
        r == history_evidence(*history),
{
    let mut total = Double { bits: 0 };
    if history.strong_transition {
        total = double::plus(total, Double { bits: TRANSITION });
        if let Some(magnitude) = history.transition_magnitude {
            let part = double::over(magnitude, Double { bits: double::HUNDRED });
            let weighed = double::times(part, Double { bits: MAGNITUDE_WEIGHT });
            total = double::plus(total, double::cap_at(weighed, MAGNITUDE_CAP));
        }
        if history.from_language.is_some() {
            total = double::plus(total, Double { bits: ORIGIN });
        }
    }
    double::cap_at(total, HISTORY_CAP)
}

fn confidence(
    candidate: &Candidate,
    analysis: &LanguageAnalysis,
    history: &HistoryAnalysis,
    kind: ProjectKind,
) -> (r: Double)
    requires
        kind == classify::kind_of(*candidate, *analysis, *history),
    ensures
        r == confidence_of(*candidate, *analysis, *history),
{
    let told = double::plus(weigh_signals(&candidate.signals), weigh_languages(analysis));
    let mut evidence = double::clamp(double::plus(told, weigh_history(history)));
    // Rewrites are the headline category: nudge them slightly ahead of otherwise
    // comparable replacements.
    if let ProjectKind::Rewrite = kind {
        evidence = double::cap_at(
            double::plus(evidence, Double { bits: REWRITE_CONFIDENCE_BONUS }),
            double::ONE,
        );
    }
    let confidence = match kind {
        ProjectKind::Neither => Double { bits: 0 },
        _ => {
            if analysis.original_language.is_some() {
                evidence
            } else if classify::has_strong_rewrite_signal(candidate) {
                double::cap_at(evidence, REPLACEMENT_REWRITE_CAP)
            } else {
                double::cap_at(evidence, NO_DISPLACED_CAP)
            }
        },
    };
    double::round2(confidence)
}

/// A language that can have been displaced, or none.
pub open spec fn sanitized(lang: Option<Seq<char>>) -> Option<Seq<char>> {
    match lang {
        Some(l) => if commits::displaceable(l) {
            Some(l)
        } else {
            None
        },
        None => None,
    }
}

/// Never emit Rust or noise languages as the displaced original.
pub fn sanitize_original_language(lang: Option<String>) -> (r: Option<String>)
    ensures
        model::opt_view(r) == sanitized(model::opt_view(lang)),
{
    match lang {
        Some(l) => {
            if !commits::names_rust(l.as_str()) && commits::is_real_application_language(
                l.as_str(),
            ) {
                Some(l)
            } else {
                None
            }
        },
        None => None,
    }
}

/// The language that a project is said to come from: the one that its sources
/// displaced, or else the one that a strong transition left.
pub open spec fn original_language_of(
    analysis: LanguageAnalysis,
    history: HistoryAnalysis,
) -> Option<Seq<char>> {
    sanitized(
        if analysis.original_language is Some {
            model::opt_view(analysis.original_language)
        } else if history.strong_transition {
            model::opt_view(history.from_language)
        } else {
            None
        },
    )
}

// --- Rewrite pull request ----------------------------------------------------

/// Keyword-based relevance for a PR title indicating it performed the rewrite.
pub open spec fn relevance(title: Seq<char>) -> int {
    lower_relevance(model::lowercase(title))
}

/// The relevance of a title in lower case.
pub open spec fn lower_relevance(t: Seq<char>) -> int {
    (if model::contains(t, "rewrite"@) {
        3int
    } else {
        0
    }) + (if model::contains(t, "port"@) {
        2int
    } else {
        0
    }) + (if model::contains(t, "rust"@) {
        1int
    } else {
        0
    })
}

/// Keyword-based relevance for a PR title indicating it performed the rewrite.
pub fn pr_relevance(title: &str) -> (r: i32)
    ensures
        r == relevance(title@),
{
    let t = title.to_lowercase();
    keyword_relevance(t.as_str())
}

/// The relevance of a title in lower case.
pub fn keyword_relevance(t: &str) -> (r: i32)
    ensures
        r == lower_relevance(t@),
{
    let mut score: i32 = 0;
    if text::contains(t, "rewrite") {
        score += 3;
    }
    if text::contains(t, "port") {
        score += 2;
    }
    if text::contains(t, "rust") {
        score += 1;
    }
    score
}

/// Recover the raw issue/PR title from a signal `detail` of the form
/// `"<label>: <title>"`, falling back to the whole detail if unsplittable.
pub fn signal_title(detail: &str) -> (r: String)
    ensures
        r@ == classify::title_body(detail@),
{
    classify::signal_title_body(detail).to_owned()
}

pub open spec fn is_pull_request(s: Signal) -> bool {
    s.kind@ == "pull-request"@
}

/// The relevance of a signal's title.
pub open spec fn signal_relevance(s: Signal) -> int {
    relevance(classify::title_body(s.detail@))
}

/// Signal `i` is the pull request of the highest relevance, the first one of
/// equals.
pub open spec fn is_best_pr(signals: Seq<Signal>, i: int) -> bool {
    &&& 0 <= i < signals.len()
    &&& is_pull_request(signals[i])
    &&& forall|j: int|
        0 <= j < signals.len() && is_pull_request(#[trigger] signals[j]) ==> {
            &&& signal_relevance(signals[j]) <= signal_relevance(signals[i])
            &&& j < i ==> signal_relevance(signals[j]) < signal_relevance(signals[i])
        }
}

/// `pr` is the pull request that represents the rewrite.
pub open spec fn represents_rewrite(signals: Seq<Signal>, pr: Option<RewritePr>) -> bool {
    match pr {
        Some(pr) => exists|i: int|
            #[trigger] is_best_pr(signals, i) && pr.title@ == classify::title_body(
                signals[i].detail@,
            ) && pr.url == signals[i].url,
        None => forall|i: int| 0 <= i < signals.len() ==> !is_pull_request(#[trigger] signals[i]),
    }
}

/// Pick the pull-request signal that best represents the rewrite.
///
/// PR signals are ranked by how strongly their title implies a rewrite
/// ("rewrite" > "port" > "rust"); the highest-scoring one wins, falling back to
/// the first PR signal when none of the keywords match. Uses only signal data
/// already collected during discovery — no extra API calls.
pub fn select_rewrite_pr(candidate: &Candidate) -> (r: Option<RewritePr>)
    ensures
        represents_rewrite(candidate.signals@, r),
{
    let signals = &candidate.signals;
    let mut best: Option<(usize, i32)> = None;
    let mut i: usize = 0;
    while i < signals.len()
        invariant
            i <= signals@.len(),
            signals@ == candidate.signals@,
            match best {
                Some((b, top)) => {
                    &&& b < i
                    &&& is_pull_request(signals@[b as int])
                    &&& top == signal_relevance(signals@[b as int])
                    &&& forall|j: int|
                        0 <= j < i && is_pull_request(#[trigger] signals@[j]) ==> {
                            &&& signal_relevance(signals@[j]) <= top
                            &&& j < b ==> signal_relevance(signals@[j]) < top
                        }
                },
                None => forall|j: int| 0 <= j < i ==> !is_pull_request(#[trigger] signals@[j]),
            },
        decreases signals@.len() - i,
    {
        if text::equal(signals[i].kind.as_str(), "pull-request") {
            let title = signal_title(signals[i].detail.as_str());
            let rel: i32 = pr_relevance(title.as_str());
            match best {
                Some((_, top)) => {
                    if rel > top {
                        best = Some((i, rel));
                    }
                },
                None => {
                    best = Some((i, rel));
                },
            }
        }
        i += 1;
    }
    match best {
        Some((b, _)) => {
            assert(is_best_pr(signals@, b as int));
            Some(
                RewritePr {
                    title: signal_title(signals[b].detail.as_str()),
                    url: signals[b].url.clone(),
                },
            )
        },
        None => None,
    }
}

// --- Source link -------------------------------------------------------------

/// The url of the first signal of a kind, from the `k`-th signal on.
pub open spec fn url_of_kind(signals: Seq<Signal>, kind: Seq<char>, k: int) -> Option<Seq<char>>
    decreases signals.len() - k,
{
    if k < 0 || k >= signals.len() {
        None
    } else if signals[k].kind@ == kind {
        Some(signals[k].url@)
    } else {
        url_of_kind(signals, kind, k + 1)
    }
}

/// The most explanatory source link: of a repository search, or else of a pull
/// request, of an issue, or of whatever comes first.
pub open spec fn source_of(signals: Seq<Signal>) -> Option<Seq<char>> {
    match url_of_kind(signals, "repo-search"@, 0) {
        Some(url) => Some(url),
        None => match url_of_kind(signals, "pull-request"@, 0) {
            Some(url) => Some(url),
            None => match url_of_kind(signals, "issue"@, 0) {
                Some(url) => Some(url),
                None => if signals.len() > 0 {
                    Some(signals[0].url@)
                } else {
                    None
                },
            },
        },
    }
}

fn find_url(signals: &Vec<Signal>, kind: &str) -> (r: Option<String>)
    ensures
        model::opt_view(r) == url_of_kind(signals@, kind@, 0),
{
    let mut k: usize = 0;
    while k < signals.len()
        invariant
            k <= signals@.len(),
            url_of_kind(signals@, kind@, 0) == url_of_kind(signals@, kind@, k as int),
        decreases signals@.len() - k,
    {
        if text::equal(signals[k].kind.as_str(), kind) {
            return Some(signals[k].url.clone());
        }
        k += 1;
    }
    None
}

/// Choose the most explanatory source link for the detection.
pub fn primary_source(candidate: &Candidate) -> (r: Option<String>)
    ensures
        model::opt_view(r) == source_of(candidate.signals@),
{
    if let Some(url) = find_url(&candidate.signals, "repo-search") {
        return Some(url);
    }
    if let Some(url) = find_url(&candidate.signals, "pull-request") {
        return Some(url);
    }
    if let Some(url) = find_url(&candidate.signals, "issue") {
        return Some(url);
    }
    if candidate.signals.len() > 0 {
        Some(candidate.signals[0].url.clone())
    } else {
        None
    }
}

/// The link of a candidate's repository.
pub open spec fn repo_url_of(candidate: Candidate) -> Seq<char> {
    if candidate.html_url@.len() == 0 {
        "https://github.com/"@ + candidate.full_name@
    } else {
        candidate.html_url@
    }
}

/// The link of a candidate's repository.
pub fn candidate_url(candidate: &Candidate) -> (r: String)
    ensures
        r@ == repo_url_of(*candidate),
{
    if candidate.html_url.as_str().is_empty() {
        let mut url = "https://github.com/".to_owned();
        url.append(candidate.full_name.as_str());
        url
    } else {
        candidate.html_url.clone()
    }
}

// --- Scoring -----------------------------------------------------------------

/// What is known only of a strong transition.
pub open spec fn if_strong<A>(history: HistoryAnalysis, x: Option<A>) -> Option<A> {
    if history.strong_transition {
        x
    } else {
        None
    }
}

/// The project holds the candidate's own data.
pub open spec fn keeps_candidate(p: Project, candidate: Candidate) -> bool {
    &&& p.name@ == model::after_last(candidate.full_name@, '/')
    &&& p.repo_url@ == repo_url_of(candidate)
    &&& p.description == candidate.description
    &&& p.stars == candidate.stars
    &&& p.forks == candidate.forks
    &&& p.open_issues == candidate.open_issues
    &&& p.open_prs == candidate.open_prs
    &&& p.signals@ == candidate.signals@
    &&& p.rewrite_prs@.len() == 0
    &&& represents_rewrite(candidate.signals@, p.rewrite_pr)
    &&& model::opt_view(p.named_origin) == classify::origin_of(candidate)
    &&& p.source_url@ == match source_of(candidate.signals@) {
        Some(url) => url,
        None => repo_url_of(candidate),
    }
}

/// The project holds the metrics of an enrichment.
pub open spec fn keeps_enrichment(p: Project, enrichment: CommitEnrichment) -> bool {
    &&& p.lines_added == enrichment.lines_added
    &&& p.lines_removed == enrichment.lines_removed
    &&& p.rewrite_velocity == enrichment.rewrite_velocity
    &&& p.ai_assist_score == enrichment.ai_assist_score
    &&& p.ai_agents@ == enrichment.ai_agents@
    &&& p.rewrite_duration_days == enrichment.rewrite_duration_days
    &&& p.commit_count == enrichment.commit_count
}

/// The project holds what a history shows; most of it only of a strong
/// transition.
pub open spec fn keeps_history(p: Project, history: HistoryAnalysis) -> bool {
    &&& p.history_from_language == if_strong(history, history.from_language)
    &&& p.history_rust_before == if_strong(history, history.rust_pct_before)
    &&& p.history_rust_after == if_strong(history, history.rust_pct_after)
    &&& p.transition_magnitude == history.transition_magnitude
    &&& p.total_commits_analyzed == if history.total_commits > 0 {
        Some(history.total_commits)
    } else {
        None
    }
}

/// No attempt at the project's history is on record.
pub open spec fn has_no_attempt(p: Project) -> bool {
    p.history_status is None && p.history_error is None && p.history_attempted_at is None
        && p.history_attempts is None
}

/// Combine a candidate and its language analysis into a scored [`Project`].
pub fn score(
    candidate: &Candidate,
    analysis: &LanguageAnalysis,
    enrichment: &CommitEnrichment,
    history: &HistoryAnalysis,
    now_iso: &str,
) -> (r: Project)
    ensures
        keeps_candidate(r, *candidate),
        keeps_enrichment(r, *enrichment),
        keeps_history(r, *history),
        has_no_attempt(r),
        model::opt_view(r.original_language) == original_language_of(*analysis, *history),
        r.rust_percentage == double::rounded_to(analysis.rust_percentage, double::HUNDRED),
        r.confidence == confidence_of(*candidate, *analysis, *history),
        double::is_fraction(r.confidence),
        r.project_kind@ == classify::kind_of(*candidate, *analysis, *history).word(),
        r.unsafe_percentage is None,
        r.first_detected@ == now_iso@,
        r.last_seen@ == now_iso@,
        !r.exemplar,
{
    let kind = classify::classify(candidate, analysis, history);
    proof {
        confidence_lies_between_zero_and_one(*candidate, *analysis, *history);
    }
    let displaced: Option<String> = if analysis.original_language.is_some() {
        analysis.original_language.clone()
    } else if history.strong_transition {
        history.from_language.clone()
    } else {
        None
    };
    let url = candidate_url(candidate);
    let source_url = match primary_source(candidate) {
        Some(source) => source,
        None => url.clone(),
    };
    Project {
        name: text::after_last(candidate.full_name.as_str(), '/'),
        repo_url: url,
        description: candidate.description.clone(),
        stars: candidate.stars,
        forks: candidate.forks,
        open_issues: candidate.open_issues,
        open_prs: candidate.open_prs,
        original_language: sanitize_original_language(displaced),
        rust_percentage: double::round2(analysis.rust_percentage),
        confidence: confidence(candidate, analysis, history, kind),
        signals: candidate.signals.clone(),
        rewrite_prs: Vec::new(),
        rewrite_pr: select_rewrite_pr(candidate),
        unsafe_percentage: None,
        project_kind: kind.as_str().to_owned(),
        named_origin: classify::named_origin(candidate),
        lines_added: enrichment.lines_added,
        lines_removed: enrichment.lines_removed,
        rewrite_velocity: enrichment.rewrite_velocity,
        ai_assist_score: enrichment.ai_assist_score,
        ai_agents: enrichment.ai_agents.clone(),
        rewrite_duration_days: enrichment.rewrite_duration_days,
        commit_count: enrichment.commit_count,
        history_from_language: if history.strong_transition {
            history.from_language.clone()
        } else {
            None
        },
        history_rust_before: if history.strong_transition {
            history.rust_pct_before
        } else {
            None
        },
        history_rust_after: if history.strong_transition {
            history.rust_pct_after
        } else {
            None
        },
        transition_magnitude: history.transition_magnitude,
        total_commits_analyzed: if history.total_commits > 0 {
            Some(history.total_commits)
        } else {
            None
        },
        history_status: None,
        history_error: None,
        history_attempted_at: None,
        history_attempts: None,
        source_url,
        first_detected: now_iso.to_owned(),
        last_seen: now_iso.to_owned(),
        exemplar: false,
    }
}

// --- Laws --------------------------------------------------------------------

/// The caps without a displaced language are whole hundredths.
proof fn lemma_caps_are_round()
    ensures
        double::rounded_to(Double { bits: NO_DISPLACED_CAP }, double::HUNDRED) == (Double {
            bits: NO_DISPLACED_CAP,
        }),
        double::rounded_to(Double { bits: REPLACEMENT_REWRITE_CAP }, double::HUNDRED) == (Double {
            bits: REPLACEMENT_REWRITE_CAP,
        }),
{
    vstd::arithmetic::power2::lemma2_to64_rest();
    double::lemma_constant(0x4028_0000_0000_0000, 0x0018_0000_0000_0000, 1025, 12, 49);
    double::lemma_constant(0x404b_8000_0000_0000, 0x001b_8000_0000_0000, 1027, 55, 47);
    reveal_with_fuel(rounding::nearest, 10);
    double::lemma_hundredths_are_round(NO_DISPLACED_CAP, 0x001e_b851_eb85_1eb8, 1018, 12, 0);
    double::lemma_hundredths_are_round(REPLACEMENT_REWRITE_CAP, 0x0011_9999_9999_999a, 1021, 55, 1);
}

/// Confidence lies between zero and one.
pub proof fn confidence_lies_between_zero_and_one(
    candidate: Candidate,
    analysis: LanguageAnalysis,
    history: HistoryAnalysis,
)
    ensures
        double::is_fraction(confidence_of(candidate, analysis, history)),
{
    evidence_is_a_fraction(candidate, analysis, history);
    let evidence = evidence_of(candidate, analysis, history);
    double::rounded_fractions_are_fractions(evidence);
    double::rounded_fractions_are_fractions(double::capped(evidence, REPLACEMENT_REWRITE_CAP));
    double::rounded_fractions_are_fractions(double::capped(evidence, NO_DISPLACED_CAP));
    double::rounded_fractions_are_fractions(Double { bits: 0 });
}

/// Text, languages and history count up to their caps, whatever they hold.
pub proof fn evidence_is_capped(
    signals: Seq<Signal>,
    analysis: LanguageAnalysis,
    history: HistoryAnalysis,
)
    ensures
        (Double { bits: TEXT_CAP }).at_least(text_evidence(signals)),
        (Double { bits: LANG_CAP }).at_least(language_evidence(analysis)),
        (Double { bits: HISTORY_CAP }).at_least(history_evidence(history)),
{
}

/// All evidence lies between zero and one.
pub proof fn evidence_is_a_fraction(
    candidate: Candidate,
    analysis: LanguageAnalysis,
    history: HistoryAnalysis,
)
    ensures
        double::is_fraction(evidence_of(candidate, analysis, history)),
{
    let t = text_evidence(candidate.signals@);
    let l = language_evidence(analysis);
    let h = history_evidence(history);
    evidence_is_capped(candidate.signals@, analysis, history);
    double::lemma_at_most_one(t);
    double::lemma_at_most_one(l);
    double::lemma_at_most_one(h);
    double::sums_are_bounded(t, l, 1, 1);
    double::sums_are_bounded(double::sum(t, l), h, 2, 1);
    let all = double::clamped(double::sum(double::sum(t, l), h));
    double::lemma_sum_of_fractions(all, Double { bits: REWRITE_CONFIDENCE_BONUS });
}

/// Without a displaced language and without strong wording, no evidence lifts a
/// project to the default threshold.
pub proof fn incidental_mentions_stay_below_the_threshold(
    candidate: Candidate,
    analysis: LanguageAnalysis,
    history: HistoryAnalysis,
)
    requires
        analysis.original_language is None,
        !classify::strong_signal(candidate),
    ensures
        !confidence_of(candidate, analysis, history).at_least(
            Double { bits: DEFAULT_MIN_CONFIDENCE },
        ),
{
    evidence_is_a_fraction(candidate, analysis, history);
    lemma_caps_are_round();
    let evidence = evidence_of(candidate, analysis, history);
    let (low, high) = (
        double::capped(evidence, NO_DISPLACED_CAP),
        double::capped(evidence, REPLACEMENT_REWRITE_CAP),
    );
    double::rounding_keeps_order(low, Double { bits: NO_DISPLACED_CAP }, double::HUNDRED);
    double::rounding_keeps_order(high, Double { bits: REPLACEMENT_REWRITE_CAP }, double::HUNDRED);
    double::rounding_keeps_order(
        Double { bits: 0 },
        Double { bits: NO_DISPLACED_CAP },
        double::HUNDRED,
    );
}

/// A repository whose description advertises nothing, and which only search
/// labels that speak of no tool brought in, stays below the default threshold:
/// that a search found "rewrite in Rust" proves nothing.
pub proof fn search_labels_alone_stay_below_the_threshold(
    candidate: Candidate,
    analysis: LanguageAnalysis,
    history: HistoryAnalysis,
)
    requires
        analysis.original_language is None,
        !classify::advertises_rewrite(classify::lower_description(candidate)),
        forall|i: int|
            0 <= i < candidate.signals@.len() ==> classify::is_bare_label(
                (#[trigger] candidate.signals@[i]).detail@,
            ),
    ensures
        !confidence_of(candidate, analysis, history).at_least(
            Double { bits: DEFAULT_MIN_CONFIDENCE },
        ),
{
    classify::bare_labels_are_not_strong(candidate);
    incidental_mentions_stay_below_the_threshold(candidate, analysis, history);
}

/// A rewrite without displaced bytes cannot exceed the cap for replacements.
pub proof fn no_displaced_language_caps_confidence(
    candidate: Candidate,
    analysis: LanguageAnalysis,
    history: HistoryAnalysis,
)
    requires
        analysis.original_language is None,
    ensures
        (Double { bits: REPLACEMENT_REWRITE_CAP }).at_least(
            confidence_of(candidate, analysis, history),
        ),
{
    evidence_is_a_fraction(candidate, analysis, history);
    lemma_caps_are_round();
    let evidence = evidence_of(candidate, analysis, history);
    let (low, high) = (
        double::capped(evidence, NO_DISPLACED_CAP),
        double::capped(evidence, REPLACEMENT_REWRITE_CAP),
    );
    double::rounding_keeps_order(low, Double { bits: NO_DISPLACED_CAP }, double::HUNDRED);
    double::rounding_keeps_order(high, Double { bits: REPLACEMENT_REWRITE_CAP }, double::HUNDRED);
    double::rounding_keeps_order(
        Double { bits: 0 },
        Double { bits: NO_DISPLACED_CAP },
        double::HUNDRED,
    );
}

/// A project without cross-language provenance has no confidence, so that no
/// threshold above zero keeps it.
pub proof fn unrelated_projects_are_dropped(
    candidate: Candidate,
    analysis: LanguageAnalysis,
    history: HistoryAnalysis,
    threshold: Double,
)
    requires
        classify::kind_of(candidate, analysis, history) == ProjectKind::Neither,
        threshold.above(Double { bits: 0 }),
    ensures
        !confidence_of(candidate, analysis, history).at_least(threshold),
{
    double::lemma_scales();
    double::lemma_integer(100);
    double::lemma_zero_is_round(double::HUNDRED);
}

/// Neither Rust nor a noise language is ever given as the original language.
pub proof fn original_language_is_never_rust_or_noise(
    analysis: LanguageAnalysis,
    history: HistoryAnalysis,
)
    ensures
        original_language_of(analysis, history) matches Some(language) ==> !commits::is_rust(
            language,
        ) && !commits::is_noise(language),
{
}

} // verus!
