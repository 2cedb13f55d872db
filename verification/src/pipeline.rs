//! The decisions of the commands: what a scan keeps, how stored rows are
//! classified anew, which rows a backfill takes up, how shards divide and merge.

use crate::detect::classify;
use crate::detect::classify::ProjectKind;
use crate::detect::commits::LanguageAnalysis;
use crate::detect::enrich;
use crate::detect::enrich::CommitEnrichment;
use crate::detect::score;
use crate::detect::transitions;
use crate::detect::transitions::HistoryAnalysis;
use crate::double;
use crate::double::Double;
use crate::exemplars;
use crate::order;
use crate::order::SortKey;
use crate::store;
use crate::text;
use crate::text_model as model;
use crate::text_model::CharClass;
use crate::types;
use crate::types::{Candidate, Project, Signal};
use vstd::prelude::*;
use vstd::string::*;

verus! {

// --- Stored projects as scorer inputs ----------------------------------------

/// Half of the sources, as a double: 50.
pub const HALF: u64 = 0x4049_0000_0000_0000;

/// Rust is the main language of a stored project, as far as its row shows:
/// nothing was displaced, or Rust has at least half.
pub open spec fn is_mostly_rust(p: Project) -> bool {
    p.original_language is None || p.rust_percentage.at_least(Double { bits: HALF })
}

fn mostly_rust(p: &Project) -> (r: bool)
    ensures
        r == is_mostly_rust(*p),
{
    p.original_language.is_none() || p.rust_percentage.is_at_least(Double { bits: HALF })
}

/// `c` is the candidate that a stored project came from.
pub open spec fn is_candidate_of(p: Project, c: Candidate) -> bool {
    &&& c.full_name@ == exemplars::repository_path(p.repo_url@)
    &&& c.html_url == p.repo_url
    &&& c.description == p.description
    &&& c.stars == p.stars
    &&& c.forks == p.forks
    &&& c.open_issues == p.open_issues
    &&& c.open_prs == p.open_prs
    &&& c.languages@.len() == 0
    &&& c.signals@ == p.signals@
}

pub fn candidate_from_project(p: &Project) -> (r: Candidate)
    ensures
        is_candidate_of(*p, r),
{
    Candidate {
        full_name: exemplars::repo_path(p.repo_url.as_str()).to_owned(),
        html_url: p.repo_url.clone(),
        description: p.description.clone(),
        stars: p.stars,
        forks: p.forks,
        open_issues: p.open_issues,
        open_prs: p.open_prs,
        languages: Vec::new(),
        signals: p.signals.clone(),
    }
}

pub fn analysis_from_project(p: &Project) -> (r: LanguageAnalysis)
    ensures
        r.rust_percentage == p.rust_percentage,
        r.original_language == p.original_language,
        r.rust_is_primary == is_mostly_rust(*p),
{
    LanguageAnalysis {
        rust_percentage: p.rust_percentage,
        original_language: p.original_language.clone(),
        rust_is_primary: mostly_rust(p),
    }
}

pub fn enrichment_from_project(p: &Project) -> (r: CommitEnrichment)
    ensures
        score::keeps_enrichment(*p, r),
{
    CommitEnrichment {
        lines_added: p.lines_added,
        lines_removed: p.lines_removed,
        rewrite_velocity: p.rewrite_velocity,
        ai_assist_score: p.ai_assist_score,
        ai_agents: p.ai_agents.clone(),
        rewrite_duration_days: p.rewrite_duration_days,
        commit_count: p.commit_count,
    }
}

/// `e` are the metrics of a history, where it has any.
pub open spec fn is_history_enrichment(history: HistoryAnalysis, e: CommitEnrichment) -> bool {
    if history.enrichment.lines_added is Some || history.enrichment.ai_agents@.len() > 0 {
        enrich::same_enrichment(e, history.enrichment)
    } else {
        enrich::is_blank(e)
    }
}

/// The metrics of a history, where it has any.
pub fn history_enrichment(history: &HistoryAnalysis) -> (r: CommitEnrichment)
    ensures
        is_history_enrichment(*history, r),
        if history.enrichment.lines_added is Some || history.enrichment.ai_agents@.len() > 0 {
            enrich::same_enrichment(r, history.enrichment)
        } else {
            enrich::is_blank(r)
        },
{
    let e = &history.enrichment;
    if e.lines_added.is_some() || !e.ai_agents.is_empty() {
        e.clone()
    } else {
        CommitEnrichment::default()
    }
}

/// `h` is the history that a stored project shows.
pub open spec fn is_history_of(p: Project, h: HistoryAnalysis) -> bool {
    &&& score::keeps_enrichment(p, h.enrichment)
    &&& h.from_language == p.history_from_language
    &&& h.rust_pct_before == p.history_rust_before
    &&& h.rust_pct_after == p.history_rust_after
    &&& h.transition_magnitude == p.transition_magnitude
    &&& h.total_commits == match p.total_commits_analyzed {
        Some(n) => n,
        None => 0,
    }
    &&& h.strong_transition == transitions::stored_is_strong(
        p.transition_magnitude,
        p.history_rust_before,
        p.history_rust_after,
        p.history_from_language is Some,
    )
}

pub fn history_from_project(p: &Project) -> (r: HistoryAnalysis)
    ensures
        is_history_of(*p, r),
{
    let from: Option<&str> = match &p.history_from_language {
        Some(language) => Some(language.as_str()),
        None => None,
    };
    HistoryAnalysis {
        enrichment: enrichment_from_project(p),
        from_language: p.history_from_language.clone(),
        rust_pct_before: p.history_rust_before,
        rust_pct_after: p.history_rust_after,
        transition_magnitude: p.transition_magnitude,
        total_commits: match p.total_commits_analyzed {
            Some(n) => n,
            None => 0,
        },
        strong_transition: transitions::strong_transition_from_stored(
            p.transition_magnitude,
            p.history_rust_before,
            p.history_rust_after,
            from,
        ),
    }
}

/// `r` is what the scorer makes of a stored project with this enrichment and
/// history.
pub open spec fn is_rescored(
    p: Project,
    enrichment: CommitEnrichment,
    history: HistoryAnalysis,
    now: Seq<char>,
    r: Project,
) -> bool {
    exists|c: Candidate, a: LanguageAnalysis|
        #![trigger is_candidate_of(p, c), is_analysis_of(p, a)]
        {
            &&& is_candidate_of(p, c)
            &&& is_analysis_of(p, a)
            &&& score::keeps_candidate(r, c)
            &&& score::keeps_enrichment(r, enrichment)
            &&& score::keeps_history(r, history)
            &&& score::has_no_attempt(r)
            &&& model::opt_view(r.original_language) == score::original_language_of(a, history)
            &&& r.rust_percentage == double::rounded_to(a.rust_percentage, double::HUNDRED)
            &&& r.confidence == score::confidence_of(c, a, history)
            &&& r.project_kind@ == classify::kind_of(c, a, history).word()
            &&& r.unsafe_percentage is None
            &&& r.first_detected@ == now
            &&& r.last_seen@ == now
            &&& !r.exemplar
        }
}

/// `a` is the language analysis that a stored project shows.
pub open spec fn is_analysis_of(p: Project, a: LanguageAnalysis) -> bool {
    &&& a.rust_percentage == p.rust_percentage
    &&& a.original_language == p.original_language
    &&& a.rust_is_primary == is_mostly_rust(p)
}

/// Score a stored project anew.
pub fn rescore(
    p: &Project,
    enrichment: &CommitEnrichment,
    history: &HistoryAnalysis,
    now: &str,
) -> (r: Project)
    ensures
        is_rescored(*p, *enrichment, *history, now@, r),
{
    let candidate = candidate_from_project(p);
    let analysis = analysis_from_project(p);
    assert(is_candidate_of(*p, candidate));
    assert(is_analysis_of(*p, analysis));
    score::score(&candidate, &analysis, enrichment, history, now)
}

/// `r` is `scored` with the dates of the row that it takes the place of.
pub open spec fn keeps_dates(p: Project, scored: Project, r: Project) -> bool {
    &&& r.first_detected == p.first_detected
    &&& r.last_seen == p.last_seen
    &&& types::same_project(
        r,
        Project { first_detected: r.first_detected, last_seen: r.last_seen, ..scored },
    )
}

/// The row of a stored project that was scored anew: with its own dates.
pub fn reclassified(p: &Project, scored: &Project) -> (r: Project)
    ensures
        keeps_dates(*p, *scored, r),
{
    let mut r = scored.clone();
    r.first_detected = p.first_detected.clone();
    r.last_seen = p.last_seen.clone();
    r
}

/// `row` is the row of a stored project that is scored anew from what it holds.
pub open spec fn is_reclassified(
    p: Project,
    now: Seq<char>,
    row: Project,
) -> bool {
    exists|e: CommitEnrichment, h: HistoryAnalysis, scored: Project|
        #![trigger is_rescored(p, e, h, now, scored)]
        {
            &&& score::keeps_enrichment(p, e)
            &&& is_history_of(p, h)
            &&& is_rescored(p, e, h, now, scored)
            &&& keeps_dates(p, scored, row)
        }
}

/// Score a stored project anew from what it holds.
pub fn reclassify_project(
    p: &Project,
    now: &str,
) -> (r: (Fate, Project))
    ensures
        is_reclassified(*p, now@, r.1),
        r.0 == fate(r.1.project_kind@),
{
    let enrichment = enrichment_from_project(p);
    let history = history_from_project(p);
    let scored = rescore(p, &enrichment, &history, now);
    let row = reclassified(p, &scored);
    (fate_of(row.project_kind.as_str()), row)
}

/// What becomes of a row that was classified anew.
#[derive(Debug, Clone, Copy, PartialEq, Eq, Structural)]
pub enum Fate {
    Rewrite,
    Replacement,
    /// The row is deleted.
    Dropped,
}

pub open spec fn fate(kind: Seq<char>) -> Fate {
    if kind == "rewrite"@ {
        Fate::Rewrite
    } else if kind == "replacement"@ {
        Fate::Replacement
    } else {
        Fate::Dropped
    }
}

pub fn fate_of(kind: &str) -> (r: Fate)
    ensures
        r == fate(kind@),
{
    if text::equal(kind, "rewrite") {
        Fate::Rewrite
    } else if text::equal(kind, "replacement") {
        Fate::Replacement
    } else {
        Fate::Dropped
    }
}

// --- Scan --------------------------------------------------------------------

/// A project that a scan keeps.
pub open spec fn keeps(p: Project, min_confidence: Double) -> bool {
    !min_confidence.above(p.confidence)
}

/// Whether a scan keeps a project: its confidence is not below the threshold.
pub fn is_kept(p: &Project, min_confidence: Double) -> (r: bool)
    ensures
        r == keeps(*p, min_confidence),
        r == !min_confidence.above(p.confidence),
{
    !min_confidence.is_above(p.confidence)
}

/// `r` is `p` with the date on which it was first detected, where that is known.
pub open spec fn is_dated(p: Project, first: Option<String>, r: Project) -> bool {
    &&& r.first_detected == match first {
        Some(date) => date,
        None => p.first_detected,
    }
    &&& types::same_project(r, Project { first_detected: r.first_detected, ..p })
}

/// A project with the date on which it was first detected, where that is known.
pub fn with_first_detected(p: &Project, first: Option<String>) -> (r: Project)
    ensures
        is_dated(*p, first, r),
        types::same_project(r, Project { first_detected: r.first_detected, ..*p }),
        r.first_detected == match first {
            Some(date) => date,
            None => p.first_detected,
        },
{
    let mut r = p.clone();
    if let Some(date) = first {
        r.first_detected = date;
    }
    r
}

/// The link of a repository.
pub open spec fn github_link(full_name: Seq<char>) -> Seq<char> {
    "https://github.com/"@ + full_name
}

fn link(full_name: &str) -> (r: String)
    ensures
        r@ == github_link(full_name@),
{
    let mut url = "https://github.com/".to_owned();
    url.append(full_name);
    url
}

/// The share of unsafe functions of a scanned repository is measured.
pub open spec fn is_measured(asked: bool, analysis: LanguageAnalysis) -> bool {
    asked && analysis.rust_is_primary
}

/// Whether the share of unsafe functions of a scanned repository is measured.
pub fn measures_unsafe(asked: bool, analysis: &LanguageAnalysis) -> (r: bool)
    ensures
        r == is_measured(asked, *analysis),
        r == (asked && analysis.rust_is_primary),
{
    asked && analysis.rust_is_primary
}

/// The history of an exemplar counts as analyzed.
pub open spec fn is_done(asked: bool, history: HistoryAnalysis) -> bool {
    asked && history.total_commits > 0
}

/// Whether the history of an exemplar counts as analyzed.
pub fn history_done(asked: bool, history: &HistoryAnalysis) -> (r: bool)
    ensures
        r == is_done(asked, *history),
        r == (asked && history.total_commits > 0),
{
    asked && history.total_commits > 0
}

/// `c` is the candidate of a curated exemplar.
pub open spec fn is_exemplar_candidate(slug: Seq<char>, c: Candidate) -> bool {
    &&& c.full_name@ == slug
    &&& c.html_url@ == github_link(slug)
    &&& c.signals@.len() == 1
    &&& c.signals@[0].kind@ == "exemplar"@
    &&& c.signals@[0].url@ == github_link(slug)
    &&& c.stars == 0
    &&& c.description is None
}

/// The candidate of a curated exemplar.
pub fn exemplar_candidate(slug: &str) -> (r: Candidate)
    ensures
        is_exemplar_candidate(slug@, r),
        r.full_name@ == slug@,
        r.html_url@ == github_link(slug@),
        r.description is None,
        r.stars == 0 && r.forks == 0 && r.open_issues == 0 && r.open_prs == 0,
        r.languages@.len() == 0,
        r.signals@.len() == 1,
        r.signals@[0].kind@ == "exemplar"@,
        r.signals@[0].detail@ == "curated exemplar rewrite (priority target)"@,
        r.signals@[0].url@ == github_link(slug@),
{
    let mut signals: Vec<Signal> = Vec::new();
    signals.push(
        Signal {
            kind: "exemplar".to_owned(),
            detail: "curated exemplar rewrite (priority target)".to_owned(),
            url: link(slug),
        },
    );
    Candidate { full_name: slug.to_owned(), html_url: link(slug), signals, ..Candidate::default() }
}

/// An exemplar with this row is passed over.
pub open spec fn is_skipped(existing: Option<Project>, force: bool) -> bool {
    !force && match existing {
        Some(p) => is_history_ok(p),
        None => false,
    }
}

/// Whether an exemplar is passed over: its history is analyzed already.
pub fn skip_exemplar(existing: Option<&Project>, force: bool) -> (r: bool)
    ensures
        r == is_skipped(
            match existing {
                Some(p) => Some(*p),
                None => None,
            },
            force,
        ),
        r == (!force && match existing {
            Some(p) => is_history_ok(*p),
            None => false,
        }),
{
    match existing {
        Some(p) => !force && history_already_ok(p),
        None => false,
    }
}

/// A project whose history was analyzed.
pub fn with_history_ok(p: &Project, now: &str) -> (r: Project)
    ensures
        store::is_attempted(*p, "ok"@, None, now@, 0, r),
{
    store::with_attempt(p, "ok", None, now, 0)
}

/// A link of a repository: without slashes behind it, or with the site's address
/// before "owner/name".
pub open spec fn normalized_url(repo: Seq<char>) -> Seq<char> {
    if model::starts_with(repo, "https://"@) || model::starts_with(repo, "http://"@) {
        model::trim_end(repo, CharClass::Only('/'))
    } else {
        github_link(model::trim(repo, CharClass::Only('/')))
    }
}

pub fn normalize_repo_url(repo: &str) -> (r: String)
    ensures
        r@ == normalized_url(repo@),
{
    if text::starts_with(repo, "https://") || text::starts_with(repo, "http://") {
        text::trim_end(repo, CharClass::Only('/')).to_owned()
    } else {
        link(text::trim(repo, CharClass::Only('/')))
    }
}

// --- Backfill ----------------------------------------------------------------

/// Limits and switches of a backfill.
#[derive(Debug, Clone, Copy, PartialEq, Eq, Structural)]
pub struct BackfillOptions {
    /// Skip repos with at least this many stars (0 = no limit; analyze all).
    pub max_stars: u64,
    /// Per-step clone/log timeout in seconds for normal repos.
    pub timeout_secs: u64,
    /// Per-step timeout for exemplar / macro-commit analysis (large monorepos).
    pub macro_timeout_secs: u64,
    /// Stop retrying a repo after this many failed/empty history attempts.
    pub max_attempts: u32,
    /// Retry rows previously marked `failed` (otherwise they stay dead-lettered).
    pub retry_failed: bool,
    /// Process at most this many pending repos per invocation.
    pub batch_size: usize,
    /// Re-analyze rows even when `history_status` is already `ok`.
    pub force: bool,
    /// Measure unsafe-Rust usage for primarily-Rust repos.
    pub measure_unsafe: bool,
}

pub open spec fn has_status(p: Project, status: Seq<char>) -> bool {
    model::opt_view(p.history_status) == Some(status)
}

pub open spec fn is_history_ok(p: Project) -> bool {
    has_status(p, "ok"@)
}

/// The attempts at a project's history so far.
pub open spec fn attempts_of(p: Project) -> u32 {
    match p.history_attempts {
        Some(n) => n,
        None => 0,
    }
}

/// The attempts after one more.
pub open spec fn next_attempt(p: Project) -> u32 {
    if attempts_of(p) == u32::MAX {
        u32::MAX
    } else {
        (attempts_of(p) + 1) as u32
    }
}

/// The attempts at a project's history failed too often to try again.
pub open spec fn is_dead(p: Project, options: BackfillOptions) -> bool {
    !options.retry_failed && has_status(p, "failed"@) && attempts_of(p) >= options.max_attempts
}

/// The share of unsafe functions is wanted and was not measured.
pub open spec fn lacks_measurement(p: Project, options: BackfillOptions) -> bool {
    options.measure_unsafe && p.unsafe_percentage is None && is_mostly_rust(p)
}

pub open spec fn is_exemplar(p: Project, exemplar_slugs: Seq<Seq<char>>) -> bool {
    exemplar_slugs.contains(exemplars::slug(p.repo_url@))
}

/// A backfill has something to do for a project.
pub open spec fn is_pending(
    p: Project,
    options: BackfillOptions,
    exemplar_slugs: Seq<Seq<char>>,
) -> bool {
    if options.force {
        true
    } else if is_history_ok(p) {
        lacks_measurement(p, options) && !is_exemplar(p, exemplar_slugs)
    } else {
        !is_dead(p, options)
    }
}

/// What a backfill does about a project.
#[derive(Debug, Clone, Copy, PartialEq, Eq, Structural)]
pub enum BackfillStep {
    /// Too many stars.
    SkipStars,
    /// Analyzed already, and nothing left to measure.
    SkipDone,
    /// Failed too often.
    SkipDead,
    /// The batch is full.
    Stop,
    /// Analyzed already: measure the share of unsafe functions alone.
    MeasureUnsafe,
    /// Analyze the history, and measure the share of unsafe functions if wanted.
    Analyze { macro_mode: bool, timeout_secs: u64, measure_unsafe: bool },
}

pub open spec fn step_for(
    p: Project,
    options: BackfillOptions,
    exemplar_slugs: Seq<Seq<char>>,
    processed: int,
) -> BackfillStep {
    if options.max_stars > 0 && p.stars >= options.max_stars {
        BackfillStep::SkipStars
    } else if !is_pending(p, options, exemplar_slugs) {
        if is_history_ok(p) {
            BackfillStep::SkipDone
        } else {
            BackfillStep::SkipDead
        }
    } else if processed >= options.batch_size {
        BackfillStep::Stop
    } else if is_history_ok(p) && !options.force {
        BackfillStep::MeasureUnsafe
    } else {
        BackfillStep::Analyze {
            macro_mode: is_exemplar(p, exemplar_slugs),
            timeout_secs: if is_exemplar(p, exemplar_slugs) {
                options.macro_timeout_secs
            } else {
                options.timeout_secs
            },
            measure_unsafe: lacks_measurement(p, options),
        }
    }
}

fn status_is(p: &Project, status: &str) -> (r: bool)
    ensures
        r == has_status(*p, status@),
{
    match &p.history_status {
        Some(s) => text::equal(s.as_str(), status),
        None => false,
    }
}

pub fn history_already_ok(p: &Project) -> (r: bool)
    ensures
        r == is_history_ok(*p),
{
    status_is(p, "ok")
}

fn is_unmeasured(p: &Project, options: &BackfillOptions) -> (r: bool)
    ensures
        r == lacks_measurement(*p, *options),
{
    options.measure_unsafe && p.unsafe_percentage.is_none() && mostly_rust(p)
}

pub fn backfill_pending(p: &Project, options: &BackfillOptions, exemplar_slugs: &Vec<String>) -> (r:
    bool)
    ensures
        r == is_pending(*p, *options, model::views(exemplar_slugs@)),
{
    if options.force {
        return true;
    }
    if history_already_ok(p) {
        return is_unmeasured(p, options) && !exemplars::is_exemplar(
            p.repo_url.as_str(),
            exemplar_slugs,
        );
    }
    let attempts: u32 = match p.history_attempts {
        Some(n) => n,
        None => 0,
    };
    options.retry_failed || !status_is(p, "failed") || attempts < options.max_attempts
}

/// What a backfill that has processed some projects does about the next.
pub fn backfill_step(
    p: &Project,
    options: &BackfillOptions,
    exemplar_slugs: &Vec<String>,
    processed: usize,
) -> (r: BackfillStep)
    ensures
        r == step_for(*p, *options, model::views(exemplar_slugs@), processed as int),
{
    if options.max_stars > 0 && p.stars >= options.max_stars {
        return BackfillStep::SkipStars;
    }
    if !backfill_pending(p, options, exemplar_slugs) {
        return if history_already_ok(p) {
            BackfillStep::SkipDone
        } else {
            BackfillStep::SkipDead
        };
    }
    if processed >= options.batch_size {
        return BackfillStep::Stop;
    }
    if history_already_ok(p) && !options.force {
        return BackfillStep::MeasureUnsafe;
    }
    let macro_mode = exemplars::is_exemplar(p.repo_url.as_str(), exemplar_slugs);
    BackfillStep::Analyze {
        macro_mode,
        timeout_secs: if macro_mode {
            options.macro_timeout_secs
        } else {
            options.timeout_secs
        },
        measure_unsafe: is_unmeasured(p, options),
    }
}

/// The attempts after one more that failed.
pub fn attempts_after_failure(p: &Project) -> (r: u32)
    ensures
        r == next_attempt(*p),
{
    let prior: u32 = match p.history_attempts {
        Some(n) => n,
        None => 0,
    };
    if prior == u32::MAX {
        u32::MAX
    } else {
        prior + 1
    }
}

/// The metrics of a project after its history was analyzed: the new ones, or
/// those that it had where there are none.
pub fn backfill_enrichment(p: &Project, history: &HistoryAnalysis) -> (r: CommitEnrichment)
    ensures
        is_backfill_enrichment(*p, *history, r),
{
    if history.enrichment.lines_added.is_some() {
        history.enrichment.clone()
    } else {
        enrichment_from_project(p)
    }
}

/// `r` is `scored`, as the row of a project whose history was analyzed.
pub open spec fn is_backfilled(p: Project, scored: Project, now: Seq<char>, r: Project) -> bool {
    &&& r.first_detected == p.first_detected
    &&& r.last_seen == p.last_seen
    &&& is_history_ok(r)
    &&& r.history_error is None
    &&& model::opt_view(r.history_attempted_at) == Some(now)
    &&& r.history_attempts == Some(0u32)
    &&& types::same_project(
        r,
        Project {
            first_detected: r.first_detected,
            last_seen: r.last_seen,
            history_status: r.history_status,
            history_error: r.history_error,
            history_attempted_at: r.history_attempted_at,
            history_attempts: r.history_attempts,
            ..scored
        },
    )
}

/// The row of a project whose history was analyzed, from what it scores now.
pub fn backfilled(p: &Project, scored: &Project, now: &str) -> (r: Project)
    ensures
        is_backfilled(*p, *scored, now@, r),
{
    let dated = reclassified(p, scored);
    store::with_attempt(&dated, "ok", None, now, 0)
}

/// `e` are the metrics of a project after its history was analyzed.
pub open spec fn is_backfill_enrichment(
    p: Project,
    history: HistoryAnalysis,
    e: CommitEnrichment,
) -> bool {
    if history.enrichment.lines_added is Some {
        enrich::same_enrichment(e, history.enrichment)
    } else {
        score::keeps_enrichment(p, e)
    }
}

/// `row` is the row of a project after its history was analyzed.
pub open spec fn is_backfill_row(
    p: Project,
    history: HistoryAnalysis,
    now: Seq<char>,
    row: Project,
) -> bool {
    exists|e: CommitEnrichment, scored: Project|
        #![trigger is_rescored(p, e, history, now, scored)]
        {
            &&& is_backfill_enrichment(p, history, e)
            &&& is_rescored(p, e, history, now, scored)
            &&& is_backfilled(p, scored, now, row)
        }
}

/// What came of an analysis of a project's history.
#[derive(Debug)]
pub enum BackfillResult {
    /// No commits were analyzed: one more attempt failed.
    Failed { attempts: u32 },
    /// The row to write.
    Row(Project),
}

/// What came of an analysis of a project's history.
pub fn backfill_result(
    p: &Project,
    history: &HistoryAnalysis,
    now: &str,
) -> (r: BackfillResult)
    ensures
        match r {
            BackfillResult::Failed { attempts } => history.total_commits == 0 && attempts
                == next_attempt(*p),
            BackfillResult::Row(row) => history.total_commits > 0 && is_backfill_row(
                *p,
                *history,
                now@,
                row,
            ),
        },
{
    if history.total_commits == 0 {
        return BackfillResult::Failed { attempts: attempts_after_failure(p) };
    }
    let enrichment = backfill_enrichment(p, history);
    let scored = rescore(p, &enrichment, history, now);
    BackfillResult::Row(backfilled(p, &scored, now))
}

pub open spec fn backfill_key(p: Project, exemplar_slugs: Seq<Seq<char>>) -> SortKey {
    let priority = exemplars::priority(p.repo_url@, p.stars, p.confidence, exemplar_slugs);
    SortKey {
        first: priority.0 as i128,
        second: priority.1 as i128,
        third: priority.2 as i128,
        fourth: 0,
    }
}

pub open spec fn backfill_keys(
    projects: Seq<Project>,
    exemplar_slugs: Seq<Seq<char>>,
) -> Seq<SortKey> {
    Seq::new(projects.len(), |i: int| backfill_key(projects[i], exemplar_slugs))
}

/// The order in which projects are backfilled: by priority.
pub fn backfill_order(projects: &Vec<Project>, exemplar_slugs: &Vec<String>) -> (r: Vec<usize>)
    ensures
        order::orders(
            backfill_keys(projects@, model::views(exemplar_slugs@)),
            r@,
            projects@.len() as int,
        ),
{
    let ghost slugs = model::views(exemplar_slugs@);
    let ghost all = backfill_keys(projects@, slugs);
    let mut keys: Vec<SortKey> = Vec::new();
    let mut i: usize = 0;
    while i < projects.len()
        invariant
            i <= projects@.len(),
            slugs == model::views(exemplar_slugs@),
            all == backfill_keys(projects@, slugs),
            keys@ == all.take(i as int),
        decreases projects@.len() - i,
    {
        let p = &projects[i];
        let priority = exemplars::backfill_priority(
            p.repo_url.as_str(),
            p.stars,
            p.confidence,
            exemplar_slugs,
        );
        keys.push(
            SortKey {
                first: priority.0 as i128,
                second: priority.1 as i128,
                third: priority.2 as i128,
                fourth: 0,
            },
        );
        assert(keys@ =~= all.take(i + 1));
        i += 1;
    }
    assert(keys@ =~= all);
    order::stable_order(&keys)
}

// --- Shards ------------------------------------------------------------------

/// Why a shard is not understood.
#[derive(Debug, Clone, Copy, PartialEq, Eq, Structural)]
pub enum ShardError {
    /// There is no slash.
    Syntax,
    /// The index is no number.
    Index,
    /// The total is no number.
    Total,
    /// The total is zero.
    NoShards,
    /// The index is not below the total.
    OutOfRange,
}

/// The shard that a text of the form `INDEX/TOTAL` names.
pub open spec fn shard_in(raw: Seq<char>) -> Result<(nat, nat), ShardError> {
    match model::split_once(raw, "/"@) {
        Some(parts) => match model::parse_unsigned(parts.0, u32::MAX as nat) {
            Some(index) => match model::parse_unsigned(parts.1, u32::MAX as nat) {
                Some(total) => if total == 0 {
                    Err(ShardError::NoShards)
                } else if index >= total {
                    Err(ShardError::OutOfRange)
                } else {
                    Ok((index, total))
                },
                None => Err(ShardError::Total),
            },
            None => Err(ShardError::Index),
        },
        None => Err(ShardError::Syntax),
    }
}

/// Read a shard, if there is one to read.
pub fn parse_shard(raw: Option<&str>) -> (r: Result<Option<(u32, u32)>, ShardError>)
    ensures
        match raw {
            None => r == Ok::<Option<(u32, u32)>, ShardError>(None),
            Some(s) => match r {
                Ok(Some(shard)) => shard_in(s@) == Ok::<(nat, nat), ShardError>(
                    (shard.0 as nat, shard.1 as nat),
                ),
                Ok(None) => false,
                Err(e) => shard_in(s@) == Err::<(nat, nat), ShardError>(e),
            },
        },
        r matches Ok(Some(shard)) ==> shard.0 < shard.1,
{
    let s = match raw {
        Some(s) => s,
        None => return Ok(None),
    };
    let parts = match text::split_once(s, "/") {
        Some(parts) => parts,
        None => return Err(ShardError::Syntax),
    };
    let index: u64 = match text::parse_unsigned(parts.0, u32::MAX as u64) {
        Some(n) => n,
        None => return Err(ShardError::Index),
    };
    let total: u64 = match text::parse_unsigned(parts.1, u32::MAX as u64) {
        Some(n) => n,
        None => return Err(ShardError::Total),
    };
    if total == 0 {
        return Err(ShardError::NoShards);
    }
    if index >= total {
        return Err(ShardError::OutOfRange);
    }
    proof {
        lemma_parsed_is_bounded(parts.0@);
        lemma_parsed_is_bounded(parts.1@);
    }
    Ok(Some((index as u32, total as u32)))
}

proof fn lemma_parsed_is_bounded(s: Seq<char>)
    ensures
        model::parse_unsigned(s, u32::MAX as nat) matches Some(n) ==> n <= u32::MAX,
{
}

pub const FNV_OFFSET: u64 = 0xcbf29ce484222325;

pub const FNV_PRIME: u64 = 0x100000001b3;

/// The FNV-1a hash of a row of bytes.
pub open spec fn fnv(bytes: Seq<u8>) -> u64
    decreases bytes.len(),
{
    if bytes.len() == 0 {
        FNV_OFFSET
    } else {
        vstd::wrapping::u64_specs::wrapping_mul(
            fnv(bytes.drop_last()) ^ (bytes.last() as u64),
            FNV_PRIME,
        )
    }
}

/// The shard that a repository belongs to.
pub open spec fn shard_of(repo_url: Seq<char>, total: u32) -> int {
    fnv(vstd::utf8::encode_utf8(repo_url)) as int % total as int
}

/// Whether a shard owns a repository.
pub fn shard_owns(repo_url: &str, index: u32, total: u32) -> (r: bool)
    requires
        total > 0,
    ensures
        r == (shard_of(repo_url@, total) == index),
{
    let bytes = repo_url.as_bytes();
    let mut hash: u64 = FNV_OFFSET;
    let mut i: usize = 0;
    while i < bytes.len()
        invariant
            i <= bytes@.len(),
            hash == fnv(bytes@.take(i as int)),
        decreases bytes@.len() - i,
    {
        assert(bytes@.take(i + 1).drop_last() =~= bytes@.take(i as int));
        hash = (hash ^ (bytes[i] as u64)).wrapping_mul(FNV_PRIME);
        i += 1;
    }
    assert(bytes@.take(bytes@.len() as int) =~= bytes@);
    hash % (total as u64) == index as u64
}

// --- Merging -----------------------------------------------------------------

/// How far a project's history got: analyzed, failed, or neither.
pub open spec fn progress(p: Project) -> int {
    if has_status(p, "ok"@) {
        2
    } else if has_status(p, "failed"@) {
        1
    } else {
        0
    }
}

/// When a project's history was last attempted; empty where it never was.
pub open spec fn attempt_date(p: Project) -> Seq<char> {
    model::text_or_empty(p.history_attempted_at)
}

/// A row that is preferred to another: its history got further or, where it got
/// as far, was attempted later.
pub open spec fn outranks(a: Project, b: Project) -> bool {
    progress(a) > progress(b) || progress(a) == progress(b) && model::precedes(
        attempt_date(b),
        attempt_date(a),
    )
}

/// The second of two rows if it outranks the first, or else the first.
pub open spec fn preferred(a: Project, b: Project) -> Project {
    if outranks(b, a) {
        b
    } else {
        a
    }
}

fn progress_of(p: &Project) -> (r: u8)
    ensures
        r == progress(*p),
{
    if status_is(p, "ok") {
        2
    } else if status_is(p, "failed") {
        1
    } else {
        0
    }
}

fn attempted_before(a: &Project, b: &Project) -> (r: bool)
    ensures
        r == model::precedes(attempt_date(*a), attempt_date(*b)),
{
    proof {
        reveal_strlit("");
        assert(""@ =~= Seq::<char>::empty());
    }
    let x = match &a.history_attempted_at {
        Some(date) => date.as_str(),
        None => "",
    };
    let y = match &b.history_attempted_at {
        Some(date) => date.as_str(),
        None => "",
    };
    text::precedes(x, y)
}

fn is_outranked(a: &Project, b: &Project) -> (r: bool)
    ensures
        r == outranks(*b, *a),
{
    let x: u8 = progress_of(a);
    let y: u8 = progress_of(b);
    y > x || y == x && attempted_before(a, b)
}

pub fn prefer_enriched(a: &Project, b: &Project) -> (r: Project)
    ensures
        types::same_project(r, preferred(*a, *b)),
{
    if is_outranked(a, b) {
        b.clone()
    } else {
        a.clone()
    }
}

/// Two doubles are equal, as numbers.
pub open spec fn equal_numbers(a: Option<Double>, b: Option<Double>) -> bool {
    match (a, b) {
        (Some(x), Some(y)) => x.at_least(y) && y.at_least(x),
        (None, None) => true,
        _ => false,
    }
}

/// A row whose history differs from another's.
pub open spec fn history_differs(a: Project, b: Project) -> bool {
    ||| model::opt_view(a.history_status) != model::opt_view(b.history_status)
    ||| model::opt_view(a.history_attempted_at) != model::opt_view(b.history_attempted_at)
    ||| !equal_numbers(a.transition_magnitude, b.transition_magnitude)
}

fn same_text(a: &Option<String>, b: &Option<String>) -> (r: bool)
    ensures
        r == (model::opt_view(*a) == model::opt_view(*b)),
{
    match (a, b) {
        (Some(x), Some(y)) => text::equal(x.as_str(), y.as_str()),
        (None, None) => true,
        _ => false,
    }
}

fn same_number(a: Option<Double>, b: Option<Double>) -> (r: bool)
    ensures
        r == equal_numbers(a, b),
{
    match (a, b) {
        (Some(x), Some(y)) => x.is_at_least(y) && y.is_at_least(x),
        (None, None) => true,
        _ => false,
    }
}

/// `after` holds the rows of `before` and, at `i`, the preferred one of a
/// project and the row that it has there, if it has one.
pub open spec fn is_merged(
    before: Seq<Project>,
    project: Project,
    after: Seq<Project>,
    i: int,
) -> bool {
    &&& forall|j: int| 0 <= j < before.len() && j != i ==> #[trigger] after[j] == before[j]
    &&& if i < before.len() {
        &&& store::is_row_of(before, project.repo_url@, i)
        &&& after.len() == before.len()
        &&& types::same_project(after[i], preferred(before[i], project))
    } else {
        &&& i == before.len()
        &&& forall|j: int| !store::is_row_of(before, project.repo_url@, j)
        &&& after.len() == before.len() + 1
        &&& types::same_project(after[i], project)
    }
}

/// The row of a project before it is merged; itself where it has none.
pub open spec fn row_before(before: Seq<Project>, project: Project, i: int) -> Project {
    if i < before.len() {
        before[i]
    } else {
        project
    }
}

/// Merge a project into the rows, preferring what got further, then the newest
/// attempt. True when the history of its row changed by that.
pub fn merge_project(rows: &mut Vec<Project>, project: &Project) -> (r: bool)
    requires
        store::rows_are_distinct(old(rows)@),
    ensures
        store::rows_are_distinct(final(rows)@),
        exists|i: int| #[trigger]
            is_merged(old(rows)@, *project, final(rows)@, i) && r == history_differs(
                preferred(row_before(old(rows)@, *project, i), *project),
                row_before(old(rows)@, *project, i),
            ),
{
    let ghost before = rows@;
    match store::find_row(rows, project.repo_url.as_str()) {
        Some(i) => {
            let row = prefer_enriched(&rows[i], project);
            let changed = !same_text(&row.history_status, &rows[i].history_status) || !same_text(
                &row.history_attempted_at,
                &rows[i].history_attempted_at,
            ) || !same_number(row.transition_magnitude, rows[i].transition_magnitude);
            rows.set(i, row);
            assert(is_merged(before, *project, rows@, i as int));
            assert(store::rows_are_distinct(rows@)) by {
                assert forall|j: int, k: int| 0 <= j < k < rows@.len() implies (
                #[trigger] rows@[j]).repo_url@ != (#[trigger] rows@[k]).repo_url@ by {
                    assert(before[j].repo_url@ != before[k].repo_url@);
                }
            }
            changed
        },
        None => {
            let changed = !same_number(project.transition_magnitude, project.transition_magnitude);
            rows.push(project.clone());
            assert(is_merged(before, *project, rows@, before.len() as int));
            assert(store::rows_are_distinct(rows@)) by {
                assert forall|j: int, k: int| 0 <= j < k < rows@.len() implies (
                #[trigger] rows@[j]).repo_url@ != (#[trigger] rows@[k]).repo_url@ by {
                    if k == before.len() {
                        assert(!store::is_row_of(before, project.repo_url@, j));
                    }
                }
            }
            changed
        },
    }
}

// --- Laws --------------------------------------------------------------------

/// Every repository belongs to exactly one of the shards.
pub proof fn shards_divide_the_repositories(repo_url: Seq<char>, total: u32)
    requires
        total > 0,
    ensures
        0 <= shard_of(repo_url, total) < total,
{
}

/// No two shards own the same repository, and one of them owns it.
pub proof fn one_shard_owns_a_repository(repo_url: Seq<char>, total: u32, i: u32, j: u32)
    requires
        total > 0,
        shard_of(repo_url, total) == i,
        shard_of(repo_url, total) == j,
    ensures
        i == j,
        i < total,
{
}

/// In a backfill no exemplar comes behind a project that is none.
pub proof fn exemplars_are_backfilled_first(
    projects: Seq<Project>,
    exemplar_slugs: Seq<Seq<char>>,
    order: Seq<usize>,
    i: int,
    j: int,
)
    requires
        order::orders(
            backfill_keys(projects, exemplar_slugs),
            order,
            projects.len() as int,
        ),
        0 <= i < j < order.len(),
        is_exemplar(projects[order[j] as int], exemplar_slugs),
    ensures
        is_exemplar(projects[order[i] as int], exemplar_slugs),
{
    let keys = backfill_keys(projects, exemplar_slugs);
    assert(order::comes_before(keys, order[i] as int, order[j] as int));
}

/// A row that is classified anew is dropped if and only if it is neither rewrite
/// nor replacement.
pub proof fn only_unrelated_rows_are_dropped(kind: ProjectKind)
    ensures
        fate(kind.word()) == Fate::Dropped <==> kind == ProjectKind::Neither,
        fate(kind.word()) == Fate::Rewrite <==> kind == ProjectKind::Rewrite,
{
    reveal_strlit("rewrite");
    reveal_strlit("replacement");
    reveal_strlit("neither");
    assert("rewrite"@.len() == 7 && "replacement"@.len() == 11 && "neither"@.len() == 7);
    assert("rewrite"@[0] == 'r' && "neither"@[0] == 'n');
}

/// A history that was analyzed is not analyzed again unless that is forced.
pub proof fn analyzed_histories_are_left_alone(
    p: Project,
    options: BackfillOptions,
    exemplar_slugs: Seq<Seq<char>>,
    processed: int,
)
    requires
        is_history_ok(p),
        !options.force,
    ensures
        !(step_for(p, options, exemplar_slugs, processed) is Analyze),
{
}

/// A batch never processes more projects than it may.
pub proof fn batches_are_bounded(
    p: Project,
    options: BackfillOptions,
    exemplar_slugs: Seq<Seq<char>>,
    processed: int,
)
    requires
        processed >= options.batch_size,
    ensures
        !(step_for(p, options, exemplar_slugs, processed) is Analyze),
        !(step_for(p, options, exemplar_slugs, processed) is MeasureUnsafe),
{
}

/// A history that failed too often is not tried again unless that is asked for.
pub proof fn dead_letters_stay_dead(
    p: Project,
    options: BackfillOptions,
    exemplar_slugs: Seq<Seq<char>>,
    processed: int,
)
    requires
        is_dead(p, options),
        !is_history_ok(p),
        !options.force,
    ensures
        step_for(p, options, exemplar_slugs, processed) is SkipStars || step_for(
            p,
            options,
            exemplar_slugs,
            processed,
        ) is SkipDead,
{
}

/// Merging loses no repository: every row keeps its place, and the project that
/// is merged has a row.
pub proof fn merging_loses_no_repository(
    before: Seq<Project>,
    project: Project,
    after: Seq<Project>,
    i: int,
)
    requires
        0 <= i,
        is_merged(before, project, after, i),
    ensures
        forall|j: int|
            0 <= j < before.len() ==> (#[trigger] after[j]).repo_url@ == before[j].repo_url@,
        store::is_row_of(after, project.repo_url@, i),
{
}

/// Of two rows, the preferred one is outranked by neither.
pub proof fn the_preferred_row_is_outranked_by_neither(a: Project, b: Project)
    ensures
        !outranks(a, preferred(a, b)),
        !outranks(b, preferred(a, b)),
{
    lemma_precedes_is_irreflexive(attempt_date(a));
    lemma_precedes_is_irreflexive(attempt_date(b));
    lemma_precedes_is_asymmetric(attempt_date(a), attempt_date(b));
}

proof fn lemma_precedes_is_irreflexive(s: Seq<char>)
    ensures
        !model::precedes(s, s),
    decreases s.len(),
{
    if s.len() > 0 {
        lemma_precedes_is_irreflexive(s.drop_first());
    }
}

proof fn lemma_precedes_is_asymmetric(a: Seq<char>, b: Seq<char>)
    ensures
        model::precedes(a, b) ==> !model::precedes(b, a),
    decreases a.len(),
{
    if a.len() > 0 && b.len() > 0 {
        lemma_precedes_is_asymmetric(a.drop_first(), b.drop_first());
    }
}

} // verus!
