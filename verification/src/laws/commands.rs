//! Laws of the commands: what is stored, read back, scored anew, backfilled,
//! divided and merged.

use crate::detect::enrich;
use crate::detect::enrich::CommitEnrichment;
use crate::detect::score;
use crate::detect::transitions;
use crate::detect::transitions::HistoryAnalysis;
use crate::double;
use crate::double::Double;
use crate::exemplars;
use crate::laws::log;
use crate::order;
use crate::pipeline;
use crate::pipeline::{BackfillOptions, BackfillStep, ShardError};
use crate::store;
use crate::text_model as model;
use crate::text_model::CharClass;
use crate::types;
use crate::types::{Candidate, Project};
use vstd::prelude::*;
use vstd::string::*;

verus! {

// --- Rows --------------------------------------------------------------------

/// A value that is new takes the place of the stored one; where there is none, the
/// stored one stays.
pub open spec fn takes_over<A>(stored: Option<A>, new: Option<A>, row: Option<A>) -> bool {
    (new is Some ==> row == new) && (new is None ==> row == stored)
}

/// A row that is written over keeps its first date and each measurement that was
/// not made again, and takes everything else from what is written.
pub proof fn rows_are_written_over(stored: Project, new: Project, row: Project)
    requires
        store::is_row_after(Some(stored), new, row),
    ensures
        row.first_detected == stored.first_detected,
        row.last_seen == new.last_seen,
        takes_over(stored.unsafe_percentage, new.unsafe_percentage, row.unsafe_percentage),
        takes_over(stored.lines_added, new.lines_added, row.lines_added),
        takes_over(stored.lines_removed, new.lines_removed, row.lines_removed),
        takes_over(stored.rewrite_velocity, new.rewrite_velocity, row.rewrite_velocity),
        takes_over(stored.ai_assist_score, new.ai_assist_score, row.ai_assist_score),
        takes_over(
            stored.rewrite_duration_days,
            new.rewrite_duration_days,
            row.rewrite_duration_days,
        ),
        takes_over(stored.commit_count, new.commit_count, row.commit_count),
        takes_over(
            stored.total_commits_analyzed,
            new.total_commits_analyzed,
            row.total_commits_analyzed,
        ),
        takes_over(stored.history_status, new.history_status, row.history_status),
        takes_over(stored.history_error, new.history_error, row.history_error),
        takes_over(stored.history_attempted_at, new.history_attempted_at, row.history_attempted_at),
        takes_over(stored.history_attempts, new.history_attempts, row.history_attempts),
        new.ai_agents@.len() > 0 ==> row.ai_agents@ == new.ai_agents@,
        new.ai_agents@.len() == 0 ==> row.ai_agents@ == stored.ai_agents@,
        row.name == new.name,
        row.repo_url == new.repo_url,
        row.description == new.description,
        row.stars == new.stars,
        row.forks == new.forks,
        row.open_issues == new.open_issues,
        row.open_prs == new.open_prs,
        row.original_language == new.original_language,
        row.rust_percentage == new.rust_percentage,
        row.confidence == new.confidence,
        row.signals@ == new.signals@,
        row.project_kind == new.project_kind,
        row.named_origin == new.named_origin,
        row.history_from_language == new.history_from_language,
        row.history_rust_before == new.history_rust_before,
        row.history_rust_after == new.history_rust_after,
        row.transition_magnitude == new.transition_magnitude,
        row.source_url == new.source_url,
{
}

/// A new row holds what is written, field for field, but for the pull requests, of
/// which it holds those that count, and the mark of an exemplar, which is not stored.
pub proof fn new_rows_hold_what_is_written(new: Project, row: Project)
    requires
        store::is_row_after(None, new, row),
    ensures
        row.first_detected == new.first_detected,
        row.last_seen == new.last_seen,
        row.repo_url == new.repo_url,
        row.confidence == new.confidence,
        row.project_kind == new.project_kind,
        row.original_language == new.original_language,
        row.unsafe_percentage == new.unsafe_percentage,
        row.lines_added == new.lines_added,
        row.lines_removed == new.lines_removed,
        row.history_from_language == new.history_from_language,
        row.history_rust_before == new.history_rust_before,
        row.history_rust_after == new.history_rust_after,
        row.transition_magnitude == new.transition_magnitude,
        row.total_commits_analyzed == new.total_commits_analyzed,
        row.history_status == new.history_status,
        row.signals@ == new.signals@,
        new.rewrite_prs@.len() > 0 ==> row.rewrite_prs@ == new.rewrite_prs@ && row.rewrite_pr
            == Some(new.rewrite_prs@[0]),
        new.rewrite_prs@.len() == 0 && new.rewrite_pr is Some ==> row.rewrite_prs@
            == seq![new.rewrite_pr->0] && row.rewrite_pr == new.rewrite_pr,
        new.rewrite_prs@.len() == 0 && new.rewrite_pr is None ==> row.rewrite_prs@.len() == 0
            && row.rewrite_pr is None,
        !row.exemplar,
{
}

/// After a project is written, its repository has a row, and it is found there.
pub proof fn what_is_written_is_found(
    before: Seq<Project>,
    new: Project,
    after: Seq<Project>,
    i: int,
)
    requires
        store::rows_are_distinct(before),
        store::is_upserted(before, new, after, i),
    ensures
        0 <= i < after.len(),
        after[i].repo_url == new.repo_url,
        after[i].confidence == new.confidence,
        forall|j: int|
            0 <= j < before.len() && before[j].repo_url@ != new.repo_url@ ==> #[trigger] after[j]
                == before[j],
        forall|j: int|
            0 <= j < before.len() && before[j].repo_url@ == new.repo_url@ ==> after.len()
                == before.len() && i == j && (#[trigger] after[j]).first_detected
                == before[j].first_detected,
{
    assert forall|j: int|
        0 <= j < before.len() && before[j].repo_url@ == new.repo_url@ implies after.len()
        == before.len() && i == j && (#[trigger] after[j]).first_detected
        == before[j].first_detected by {
        assert(store::is_row_of(before, new.repo_url@, j));
        if i < j {
            assert(before[i].repo_url@ != before[j].repo_url@);
        } else if j < i && i < before.len() {
            assert(before[j].repo_url@ != before[i].repo_url@);
        }
    }
}

// --- Reading back ------------------------------------------------------------

/// The history of a project is read back as it was scored: what a strong transition
/// showed is there again, and a history that showed none shows none.
pub proof fn histories_are_read_back(
    p: Project,
    scored: HistoryAnalysis,
    read: HistoryAnalysis,
)
    requires
        score::keeps_history(p, scored),
        pipeline::is_history_of(p, read),
    ensures
        read.total_commits == scored.total_commits,
        read.transition_magnitude == scored.transition_magnitude,
        scored.strong_transition ==> read.from_language == scored.from_language
            && read.rust_pct_before == scored.rust_pct_before && read.rust_pct_after
            == scored.rust_pct_after,
        !scored.strong_transition ==> read.from_language is None && read.rust_pct_before is None
            && read.rust_pct_after is None && !read.strong_transition,
{
}

/// A strong transition that an analysis found is strong when it is read back.
pub proof fn strong_histories_are_read_back(
    commits: Seq<crate::detect::git_history::CommitRecord>,
    sample_points: int,
    p: Project,
    found: HistoryAnalysis,
    read: HistoryAnalysis,
)
    requires
        transitions::is_analysis(commits, sample_points, found),
        score::keeps_history(p, found),
        pipeline::is_history_of(p, read),
    ensures
        read.strong_transition == found.strong_transition,
{
    if found.strong_transition {
        transitions::strong_transitions_stay_strong(commits, sample_points, found);
    }
}

/// The metrics of a project are read back as they were scored.
pub proof fn metrics_are_read_back(p: Project, scored: CommitEnrichment, read: CommitEnrichment)
    requires
        score::keeps_enrichment(p, scored),
        score::keeps_enrichment(p, read),
    ensures
        enrich::same_enrichment(read, scored),
        read.lines_added == scored.lines_added && read.lines_removed == scored.lines_removed,
        read.commit_count == scored.commit_count,
{
}

/// A candidate is read back from its project with its link, its counts and its
/// signals.
pub proof fn candidates_are_read_back(p: Project, scored: Candidate, read: Candidate)
    requires
        score::keeps_candidate(p, scored),
        pipeline::is_candidate_of(p, read),
    ensures
        read.html_url@ == if scored.html_url@.len() == 0 {
            "https://github.com/"@ + scored.full_name@
        } else {
            scored.html_url@
        },
        read.description == scored.description,
        read.stars == scored.stars && read.forks == scored.forks,
        read.open_issues == scored.open_issues && read.open_prs == scored.open_prs,
        read.signals@ == scored.signals@,
{
}

/// A row that is scored anew is still of its repository, keeps its dates, its
/// metrics and its signals.
pub proof fn reclassified_rows_keep_what_they_hold(p: Project, now: Seq<char>, row: Project)
    requires
        pipeline::is_reclassified(p, now, row),
        p.repo_url@.len() > 0,
    ensures
        row.repo_url@ == p.repo_url@,
        row.first_detected == p.first_detected,
        row.last_seen == p.last_seen,
        row.signals@ == p.signals@,
        row.stars == p.stars,
        row.description == p.description,
        row.lines_added == p.lines_added,
        row.lines_removed == p.lines_removed,
        row.transition_magnitude == p.transition_magnitude,
{
}

/// A backfilled row is of its repository, keeps its dates, is marked as analyzed,
/// and holds the metrics of the history or, where that has none, those it had.
pub proof fn backfilled_rows_hold_the_history(
    p: Project,
    history: HistoryAnalysis,
    now: Seq<char>,
    row: Project,
)
    requires
        pipeline::is_backfill_row(p, history, now, row),
        p.repo_url@.len() > 0,
    ensures
        row.repo_url@ == p.repo_url@,
        row.first_detected == p.first_detected,
        row.last_seen == p.last_seen,
        row.history_status matches Some(status) && status@ == "ok"@,
        row.history_error is None,
        row.history_attempted_at matches Some(at) && at@ == now,
        row.history_attempts == Some(0u32),
        history.enrichment.lines_added is Some ==> row.lines_added
            == history.enrichment.lines_added && row.lines_removed
            == history.enrichment.lines_removed && row.commit_count
            == history.enrichment.commit_count,
        history.enrichment.lines_added is None ==> row.lines_added == p.lines_added
            && row.lines_removed == p.lines_removed && row.commit_count == p.commit_count,
        history.strong_transition ==> row.history_from_language == history.from_language
            && row.history_rust_before == history.rust_pct_before && row.history_rust_after
            == history.rust_pct_after,
        row.transition_magnitude == history.transition_magnitude,
{
}

// --- Backfill ----------------------------------------------------------------

/// The history of a project is marked with this word.
pub open spec fn is_marked(p: Project, status: Seq<char>) -> bool {
    p.history_status matches Some(s) && s@ == status
}

/// A project is too popular for a backfill with a limit on stars.
pub open spec fn is_too_popular(p: Project, options: BackfillOptions) -> bool {
    options.max_stars != 0 && p.stars >= options.max_stars
}

/// Whatever has fewer stars than a limit, or meets none, is not passed over for its
/// stars; what has as many is.
pub proof fn stars_are_limited(
    p: Project,
    options: BackfillOptions,
    slugs: Seq<Seq<char>>,
    processed: int,
)
    ensures
        pipeline::step_for(p, options, slugs, processed) is SkipStars <==> is_too_popular(
            p,
            options,
        ),
{
}

/// A project whose history was never analyzed, and that did not fail too often, is
/// analyzed while the batch has room: for exemplars deeply and with their own time.
pub proof fn open_histories_are_analyzed(
    p: Project,
    options: BackfillOptions,
    slugs: Seq<Seq<char>>,
    processed: int,
    attempts: u32,
)
    requires
        !is_too_popular(p, options),
        !is_marked(p, "ok"@),
        attempts == match p.history_attempts {
            Some(n) => n,
            None => 0,
        },
        !is_marked(p, "failed"@) || options.retry_failed || attempts < options.max_attempts,
        processed < options.batch_size,
    ensures
        pipeline::step_for(p, options, slugs, processed) matches BackfillStep::Analyze {
            macro_mode,
            timeout_secs,
            measure_unsafe,
        } && (macro_mode <==> slugs.contains(exemplars::slug(p.repo_url@))) && timeout_secs == (
        if macro_mode {
            options.macro_timeout_secs
        } else {
            options.timeout_secs
        }) && (measure_unsafe <==> options.measure_unsafe && p.unsafe_percentage is None && (
        p.original_language is None || p.rust_percentage.at_least(double::integer(50)))),
{
    lemma_half();
}

proof fn lemma_half()
    ensures
        (Double { bits: pipeline::HALF }) == double::integer(50),
{
    vstd::arithmetic::power2::lemma2_to64_rest();
    double::lemma_constant(pipeline::HALF, 0x19_0000_0000_0000, 1027, 50, 47);
}

/// A history that was analyzed is analyzed again only when that is forced, and then
/// it is.
pub proof fn forced_histories_are_analyzed(
    p: Project,
    options: BackfillOptions,
    slugs: Seq<Seq<char>>,
    processed: int,
)
    requires
        options.force,
        !is_too_popular(p, options),
        processed < options.batch_size,
    ensures
        pipeline::step_for(p, options, slugs, processed) is Analyze,
{
}

/// Of a project whose history was analyzed, only what was not measured is measured:
/// where that is asked for, Rust is its main language, and it is no exemplar.
pub proof fn analyzed_projects_are_only_measured(
    p: Project,
    options: BackfillOptions,
    slugs: Seq<Seq<char>>,
    processed: int,
)
    requires
        is_marked(p, "ok"@),
        !options.force,
        !is_too_popular(p, options),
        processed < options.batch_size,
    ensures
        ({
            let step = pipeline::step_for(p, options, slugs, processed);
            let wanted = options.measure_unsafe && p.unsafe_percentage is None && (
            p.original_language is None || p.rust_percentage.at_least(double::integer(50)))
                && !slugs.contains(exemplars::slug(p.repo_url@));
            &&& wanted ==> step is MeasureUnsafe
            &&& !wanted ==> step is SkipDone
        }),
{
    lemma_half();
}

/// A history that failed as often as it may is given up, unless retries are asked
/// for.
pub proof fn failed_histories_are_given_up(
    p: Project,
    options: BackfillOptions,
    slugs: Seq<Seq<char>>,
    processed: int,
)
    requires
        !is_too_popular(p, options),
        !options.force,
        !options.retry_failed,
        is_marked(p, "failed"@),
        p.history_attempts matches Some(n) && n >= options.max_attempts,
    ensures
        pipeline::step_for(p, options, slugs, processed) is SkipDead,
{
    reveal_strlit("ok");
    reveal_strlit("failed");
    assert("ok"@.len() == 2 && "failed"@.len() == 6);
}

/// Each failure counts once more.
pub proof fn failures_count_up(p: Project)
    ensures
        p.history_attempts is None ==> pipeline::next_attempt(p) == 1,
        p.history_attempts matches Some(n) && n < u32::MAX ==> pipeline::next_attempt(p)
            == p.history_attempts->0 + 1,
        p.history_attempts == Some(u32::MAX) ==> pipeline::next_attempt(p) == u32::MAX,
{
}

/// In a backfill, of two exemplars or two projects that are none, the one with more
/// stars comes first, and of those with as many the one with less confidence does not
/// come first unless they count the same.
pub proof fn popular_projects_are_backfilled_first(
    projects: Seq<Project>,
    slugs: Seq<Seq<char>>,
    order: Seq<usize>,
    i: int,
    j: int,
)
    requires
        order::orders(pipeline::backfill_keys(projects, slugs), order, projects.len() as int),
        0 <= i < j < order.len(),
        slugs.contains(exemplars::slug(projects[order[i] as int].repo_url@)) == slugs.contains(
            exemplars::slug(projects[order[j] as int].repo_url@),
        ),
    ensures
        projects[order[i] as int].stars >= projects[order[j] as int].stars,
{
    let keys = pipeline::backfill_keys(projects, slugs);
    assert(order::comes_before(keys, order[i] as int, order[j] as int));
}

// --- Shards ------------------------------------------------------------------

proof fn lemma_slash(head: Seq<char>, tail: Seq<char>)
    requires
        log::lacks(head, '/'),
    ensures
        model::split_once(head + seq!['/'] + tail, "/"@) == Some((head, tail)),
{
    let s = head + seq!['/'] + tail;
    let n = head.len() as int;
    reveal_strlit("/");
    assert("/"@ =~= seq!['/']);
    assert(s.subrange(n, n + 1) =~= seq!['/']);
    assert forall|j: int| 0 <= j < n implies !model::matches_at(s, "/"@, j) by {
        if model::matches_at(s, "/"@, j) {
            assert(s.subrange(j, j + 1)[0] == s[j]);
            assert(s[j] == head[j]);
        }
    }
    model::lemma_find(s, "/"@, n);
    assert(s.take(n) =~= head);
    assert(s.skip(n + 1) =~= tail);
}

/// A shard that is written as index, slash and total is read back where the index is
/// below the total, and refused as out of range or as none where it is not.
pub proof fn shards_are_read_back(index: u32, total: u32)
    ensures
        ({
            let read = pipeline::shard_in(
                model::decimal(index as nat) + seq!['/'] + model::decimal(total as nat),
            );
            &&& index < total ==> read == Ok::<(nat, nat), ShardError>(
                (index as nat, total as nat),
            )
            &&& total == 0 ==> read == Err::<(nat, nat), ShardError>(ShardError::NoShards)
            &&& 0 < total <= index ==> read == Err::<(nat, nat), ShardError>(
                ShardError::OutOfRange,
            )
        }),
{
    let i = model::decimal(index as nat);
    let t = model::decimal(total as nat);
    log::lemma_decimal(index as nat);
    log::lemma_decimal(total as nat);
    assert forall|k: int| 0 <= k < i.len() implies #[trigger] i[k] != '/' by {
        assert(model::is_digit(i[k]));
    }
    assert(model::is_digit(i[0]) && model::is_digit(t[0]));
    lemma_slash(i, t);
}

/// Without a slash, or with something other than numbers about it, no shard is read.
pub proof fn other_texts_are_no_shards(raw: Seq<char>)
    requires
        log::lacks(raw, '/'),
    ensures
        pipeline::shard_in(raw) == Err::<(nat, nat), ShardError>(ShardError::Syntax),
{
    reveal_strlit("/");
    assert("/"@ =~= seq!['/']);
    model::lemma_lacks(raw, "/"@, 0);
}

// --- Merging -----------------------------------------------------------------

/// Of two rows of a repository, an analyzed one goes before any other, and a failed
/// one before one that was never tried; the second must be the better to be taken.
pub proof fn the_row_that_got_further_is_preferred(a: Project, b: Project)
    ensures
        is_marked(b, "ok"@) && !is_marked(a, "ok"@) ==> pipeline::preferred(a, b) == b,
        is_marked(a, "ok"@) && !is_marked(b, "ok"@) ==> pipeline::preferred(a, b) == a,
        is_marked(b, "failed"@) && !is_marked(a, "ok"@) && !is_marked(a, "failed"@)
            ==> pipeline::preferred(a, b) == b,
        is_marked(a, "failed"@) && !is_marked(b, "ok"@) && !is_marked(b, "failed"@)
            ==> pipeline::preferred(a, b) == a,
{
    reveal_strlit("ok");
    reveal_strlit("failed");
    assert("ok"@.len() == 2 && "failed"@.len() == 6);
}

/// Of two that got as far, the one that was attempted later is taken, and the first
/// where that is the same.
pub proof fn the_later_attempt_is_preferred(a: Project, b: Project)
    requires
        is_marked(a, "ok"@) == is_marked(b, "ok"@),
        is_marked(a, "failed"@) == is_marked(b, "failed"@),
        a.history_attempted_at is Some,
        b.history_attempted_at is Some,
    ensures
        model::precedes(a.history_attempted_at->0@, b.history_attempted_at->0@)
            ==> pipeline::preferred(a, b) == b,
        !model::precedes(a.history_attempted_at->0@, b.history_attempted_at->0@)
            ==> pipeline::preferred(a, b) == a,
{
}

/// A row that was never attempted gives way to one that was, where neither got
/// further.
pub proof fn attempts_are_preferred_to_none(a: Project, b: Project)
    requires
        is_marked(a, "ok"@) == is_marked(b, "ok"@),
        is_marked(a, "failed"@) == is_marked(b, "failed"@),
        a.history_attempted_at is None,
        b.history_attempted_at matches Some(at) && at@.len() > 0,
    ensures
        pipeline::preferred(a, b) == b,
        pipeline::preferred(b, a) == b,
{
}

// --- Links -------------------------------------------------------------------

/// A name becomes the link of its repository, slashes about it aside; a link stays
/// as it is, slashes behind it aside.
pub proof fn links_are_completed(name: Seq<char>)
    requires
        name.len() > 0,
        name[0] != '/' && name.last() != '/',
    ensures
        !model::starts_with(name, "https://"@) && !model::starts_with(name, "http://"@)
            ==> pipeline::normalized_url(name) == "https://github.com/"@ + name
            && pipeline::normalized_url(name.push('/')) == "https://github.com/"@ + name,
        model::starts_with(name, "https://"@) || model::starts_with(name, "http://"@)
            ==> pipeline::normalized_url(name) == name && pipeline::normalized_url(name.push('/'))
            == name,
{
    let class = CharClass::Only('/');
    let more = name.push('/');
    assert(more.drop_last() =~= name);
    assert(model::trim_end(name, class) == name);
    assert(model::trim_end(more, class) == name);
    assert(model::trim_start(name, class) == name);
    assert(model::trim_start(more, class) == more);
    reveal_strlit("https://");
    reveal_strlit("http://");
    lemma_start(name, "https://"@);
    lemma_start(name, "http://"@);
    if !model::starts_with(name, "https://"@) && !model::starts_with(name, "http://"@) {
        // A slash behind the name does not complete an address, as two stand in one.
        if model::starts_with(more, "https://"@) {
            assert(more.take(8)[6] == "https://"@[6]);
            assert(name.len() >= 7);
            assert(name.len() == 7);
            assert(more.take(8)[6] == name[6]);
        }
        if model::starts_with(more, "http://"@) {
            assert(more.take(7)[5] == "http://"@[5]);
            assert(name.len() == 6);
            assert(more.take(7)[5] == name[5]);
        }
    }
}

proof fn lemma_start(name: Seq<char>, p: Seq<char>)
    ensures
        model::starts_with(name, p) ==> model::starts_with(name.push('/'), p),
        model::starts_with(name.push('/'), p) && p.len() <= name.len() ==> model::starts_with(
            name,
            p,
        ),
{
    if p.len() <= name.len() {
        assert(name.push('/').take(p.len() as int) =~= name.take(p.len() as int));
    }
}

// --- Pull requests -----------------------------------------------------------

/// A row gives back the list of pull requests that it holds; an older one, the single
/// one that it holds by title and link.
pub proof fn pull_requests_are_given_back(
    prs: Seq<types::RewritePr>,
    title: Option<String>,
    url: Option<String>,
    r: Seq<types::RewritePr>,
)
    requires
        store::is_restored(prs, title, url, r),
    ensures
        prs.len() > 0 ==> r == prs && store::first_pr(r) == Some(prs[0]),
        prs.len() == 0 && title is Some && url is Some ==> r.len() == 1 && r[0].title == title->0
            && r[0].url == url->0 && store::first_pr(r) == Some(r[0]),
        prs.len() == 0 && (title is None || url is None) ==> r.len() == 0 && store::first_pr(
            r,
        ) is None,
{
}

} // verus!
