//! What the project table keeps: one row per repository URL.
//!
//! Writing a project again preserves `first_detected` and refreshes the other
//! fields, but never forgets a measurement that the new project lacks.

use crate::text;
use crate::text_model as model;
use crate::types;
use crate::types::{Project, RewritePr};
use vstd::prelude::*;
use vstd::string::*;

verus! {

// --- Rows --------------------------------------------------------------------

/// The new value, or the stored one where there is no new one.
pub open spec fn refreshed<A>(new: Option<A>, stored: Option<A>) -> Option<A> {
    if new is Some {
        new
    } else {
        stored
    }
}

/// `r` is the row of `stored` after `new` is written over it.
pub open spec fn is_written_over(stored: Project, new: Project, r: Project) -> bool {
    &&& r.name == new.name
    &&& r.repo_url == new.repo_url
    &&& r.description == new.description
    &&& r.stars == new.stars
    &&& r.forks == new.forks
    &&& r.open_issues == new.open_issues
    &&& r.open_prs == new.open_prs
    &&& r.original_language == new.original_language
    &&& r.rust_percentage == new.rust_percentage
    &&& r.confidence == new.confidence
    &&& r.signals@ == new.signals@
    &&& r.rewrite_prs@ == new.rewrite_pr_list()
    &&& r.rewrite_pr == first_pr(new.rewrite_pr_list())
    &&& r.unsafe_percentage == refreshed(new.unsafe_percentage, stored.unsafe_percentage)
    &&& r.project_kind == new.project_kind
    &&& r.named_origin == new.named_origin
    &&& r.lines_added == refreshed(new.lines_added, stored.lines_added)
    &&& r.lines_removed == refreshed(new.lines_removed, stored.lines_removed)
    &&& r.rewrite_velocity == refreshed(new.rewrite_velocity, stored.rewrite_velocity)
    &&& r.ai_assist_score == refreshed(new.ai_assist_score, stored.ai_assist_score)
    &&& r.ai_agents@ == if new.ai_agents@.len() > 0 {
        new.ai_agents@
    } else {
        stored.ai_agents@
    }
    &&& r.rewrite_duration_days == refreshed(
        new.rewrite_duration_days,
        stored.rewrite_duration_days,
    )
    &&& r.commit_count == refreshed(new.commit_count, stored.commit_count)
    &&& r.history_from_language == new.history_from_language
    &&& r.history_rust_before == new.history_rust_before
    &&& r.history_rust_after == new.history_rust_after
    &&& r.transition_magnitude == new.transition_magnitude
    &&& r.total_commits_analyzed == refreshed(
        new.total_commits_analyzed,
        stored.total_commits_analyzed,
    )
    &&& r.history_status == refreshed(new.history_status, stored.history_status)
    &&& r.history_error == refreshed(new.history_error, stored.history_error)
    &&& r.history_attempted_at == refreshed(new.history_attempted_at, stored.history_attempted_at)
    &&& r.history_attempts == refreshed(new.history_attempts, stored.history_attempts)
    &&& r.source_url == new.source_url
    &&& r.first_detected == stored.first_detected
    &&& r.last_seen == new.last_seen
    &&& !r.exemplar
}

fn refresh<A: Copy>(new: Option<A>, stored: Option<A>) -> (r: Option<A>)
    ensures
        r == refreshed(new, stored),
{
    match new {
        Some(x) => Some(x),
        None => stored,
    }
}

fn refresh_text(new: &Option<String>, stored: &Option<String>) -> (r: Option<String>)
    ensures
        r == refreshed(*new, *stored),
{
    if new.is_some() {
        new.clone()
    } else {
        stored.clone()
    }
}

/// `r` is the row of a project that is new: it holds the effective list of pull
/// requests and the first of them, and no mark of an exemplar.
pub open spec fn is_new_row(new: Project, r: Project) -> bool {
    &&& r.rewrite_prs@ == new.rewrite_pr_list()
    &&& r.rewrite_pr == first_pr(new.rewrite_pr_list())
    &&& !r.exemplar
    &&& types::same_project(
        r,
        Project { rewrite_prs: r.rewrite_prs, rewrite_pr: r.rewrite_pr, exemplar: false, ..new },
    )
}

/// The row of a project that is new.
pub fn new_row(new: &Project) -> (r: Project)
    ensures
        is_new_row(*new, r),
{
    let (list, first) = stored_rewrite_prs(new);
    let mut r = new.clone();
    r.rewrite_prs = list;
    r.rewrite_pr = first;
    r.exemplar = false;
    r
}

/// The row of a project that is stored already, after `new` is written.
pub fn written_over(stored: &Project, new: &Project) -> (r: Project)
    ensures
        is_written_over(*stored, *new, r),
{
    let mut r = new_row(new);
    r.unsafe_percentage = refresh(new.unsafe_percentage, stored.unsafe_percentage);
    r.lines_added = refresh(new.lines_added, stored.lines_added);
    r.lines_removed = refresh(new.lines_removed, stored.lines_removed);
    r.rewrite_velocity = refresh(new.rewrite_velocity, stored.rewrite_velocity);
    r.ai_assist_score = refresh(new.ai_assist_score, stored.ai_assist_score);
    if new.ai_agents.is_empty() {
        r.ai_agents = stored.ai_agents.clone();
    }
    r.rewrite_duration_days = refresh(new.rewrite_duration_days, stored.rewrite_duration_days);
    r.commit_count = refresh(new.commit_count, stored.commit_count);
    r.total_commits_analyzed = refresh(new.total_commits_analyzed, stored.total_commits_analyzed);
    r.history_status = refresh_text(&new.history_status, &stored.history_status);
    r.history_error = refresh_text(&new.history_error, &stored.history_error);
    r.history_attempted_at = refresh_text(&new.history_attempted_at, &stored.history_attempted_at);
    r.history_attempts = refresh(new.history_attempts, stored.history_attempts);
    r.first_detected = stored.first_detected.clone();
    r
}

/// `r` is the row of a project after `new` is written: as it is, or over the one
/// that is stored.
pub open spec fn is_row_after(stored: Option<Project>, new: Project, r: Project) -> bool {
    match stored {
        Some(row) => is_written_over(row, new, r),
        None => is_new_row(new, r),
    }
}

/// The row of a project after it is written.
pub fn upserted(stored: Option<&Project>, new: &Project) -> (r: Project)
    ensures
        is_row_after(
            match stored {
                Some(row) => Some(*row),
                None => None,
            },
            *new,
            r,
        ),
{
    match stored {
        Some(row) => written_over(row, new),
        None => new_row(new),
    }
}

/// `r` is `p` after an attempt at its history.
pub open spec fn is_attempted(
    p: Project,
    status: Seq<char>,
    error: Option<Seq<char>>,
    attempted_at: Seq<char>,
    attempts: u32,
    r: Project,
) -> bool {
    &&& model::opt_view(r.history_status) == Some(status)
    &&& model::opt_view(r.history_error) == error
    &&& model::opt_view(r.history_attempted_at) == Some(attempted_at)
    &&& r.history_attempts == Some(attempts)
    &&& types::same_project(
        r,
        Project {
            history_status: r.history_status,
            history_error: r.history_error,
            history_attempted_at: r.history_attempted_at,
            history_attempts: r.history_attempts,
            ..p
        },
    )
}

/// A project after an attempt at its history.
pub fn with_attempt(
    p: &Project,
    status: &str,
    error: Option<&str>,
    attempted_at: &str,
    attempts: u32,
) -> (r: Project)
    ensures
        is_attempted(
            *p,
            status@,
            match error {
                Some(e) => Some(e@),
                None => None,
            },
            attempted_at@,
            attempts,
            r,
        ),
{
    let mut r = p.clone();
    r.history_status = Some(status.to_owned());
    r.history_error = match error {
        Some(e) => Some(e.to_owned()),
        None => None,
    };
    r.history_attempted_at = Some(attempted_at.to_owned());
    r.history_attempts = Some(attempts);
    r
}

// --- The table ---------------------------------------------------------------

/// Row `i` is of this repository.
pub open spec fn is_row_of(rows: Seq<Project>, repo_url: Seq<char>, i: int) -> bool {
    0 <= i < rows.len() && rows[i].repo_url@ == repo_url
}

/// No repository has two rows.
pub open spec fn rows_are_distinct(rows: Seq<Project>) -> bool {
    forall|i: int, j: int|
        0 <= i < j < rows.len() ==> (#[trigger] rows[i]).repo_url@ != (
        #[trigger] rows[j]).repo_url@
}

/// The row of a repository.
pub fn find_row(rows: &Vec<Project>, repo_url: &str) -> (r: Option<usize>)
    ensures
        match r {
            Some(i) => is_row_of(rows@, repo_url@, i as int),
            None => forall|i: int| !is_row_of(rows@, repo_url@, i),
        },
{
    let mut i: usize = 0;
    while i < rows.len()
        invariant
            i <= rows@.len(),
            forall|j: int| 0 <= j < i ==> !is_row_of(rows@, repo_url@, j),
        decreases rows@.len() - i,
    {
        if text::equal(rows[i].repo_url.as_str(), repo_url) {
            return Some(i);
        }
        i += 1;
    }
    None
}

/// `after` holds the rows of `before` and, at `i`, the row of a project after it is
/// written.
pub open spec fn is_upserted(
    before: Seq<Project>,
    new: Project,
    after: Seq<Project>,
    i: int,
) -> bool {
    &&& forall|j: int| 0 <= j < before.len() && j != i ==> #[trigger] after[j] == before[j]
    &&& if 0 <= i < before.len() {
        &&& is_row_of(before, new.repo_url@, i)
        &&& after.len() == before.len()
        &&& is_row_after(Some(before[i]), new, after[i])
    } else {
        &&& i == before.len()
        &&& forall|j: int| !is_row_of(before, new.repo_url@, j)
        &&& after.len() == before.len() + 1
        &&& is_row_after(None, new, after[i])
    }
}

proof fn lemma_upserted_rows(before: Seq<Project>, new: Project, after: Seq<Project>, i: int)
    requires
        rows_are_distinct(before),
        is_upserted(before, new, after, i),
    ensures
        rows_are_distinct(after),
        is_row_of(after, new.repo_url@, i),
{
    assert forall|j: int, k: int| 0 <= j < k < after.len() implies (#[trigger] after[j]).repo_url@
        != (#[trigger] after[k]).repo_url@ by {
        if k == before.len() {
            assert(!is_row_of(before, new.repo_url@, j));
        } else {
            assert(before[j].repo_url@ != before[k].repo_url@);
        }
    }
}

/// Write a project: over the row of its repository, or as a new row.
pub fn upsert(rows: &mut Vec<Project>, new: &Project)
    requires
        rows_are_distinct(old(rows)@),
    ensures
        rows_are_distinct(final(rows)@),
        exists|i: int| is_upserted(old(rows)@, *new, final(rows)@, i),
{
    let ghost before = rows@;
    let ghost place: int;
    match find_row(rows, new.repo_url.as_str()) {
        Some(i) => {
            let row = upserted(Some(&rows[i]), new);
            rows.set(i, row);
            proof {
                place = i as int;
            }
        },
        None => {
            rows.push(upserted(None, new));
            proof {
                place = before.len() as int;
            }
        },
    }
    assert(is_upserted(before, *new, rows@, place));
    proof {
        lemma_upserted_rows(before, *new, rows@, place);
    }
}

// --- Rewrite pull requests ---------------------------------------------------

/// The pull requests that a row gives back: the list that it holds or, where that
/// is empty, the one that older rows hold by title and URL.
pub open spec fn is_restored(
    prs: Seq<RewritePr>,
    title: Option<String>,
    url: Option<String>,
    r: Seq<RewritePr>,
) -> bool {
    if prs.len() > 0 {
        r == prs
    } else {
        match (title, url) {
            (Some(t), Some(u)) => r == seq![RewritePr { title: t, url: u }],
            _ => r.len() == 0,
        }
    }
}

/// The first of some pull requests.
pub open spec fn first_pr(prs: Seq<RewritePr>) -> Option<RewritePr> {
    if prs.len() > 0 {
        Some(prs[0])
    } else {
        None
    }
}

/// The pull requests of a row, and the first of them.
pub fn restore_rewrite_prs(
    prs: Vec<RewritePr>,
    title: Option<String>,
    url: Option<String>,
) -> (r: (Vec<RewritePr>, Option<RewritePr>))
    ensures
        is_restored(prs@, title, url, r.0@),
        r.1 == first_pr(r.0@),
{
    let mut list = prs;
    if list.is_empty() {
        if let (Some(t), Some(u)) = (title, url) {
            let pr = RewritePr { title: t, url: u };
            let ghost single = seq![pr];
            list.push(pr);
            assert(list@ =~= single);
        }
    }
    let first = if list.is_empty() {
        None
    } else {
        Some(list[0].clone())
    };
    (list, first)
}

/// The pull requests that a row holds of a project, and the first of them.
pub fn stored_rewrite_prs(p: &Project) -> (r: (Vec<RewritePr>, Option<RewritePr>))
    ensures
        r.0@ == p.rewrite_pr_list(),
        r.1 == first_pr(r.0@),
{
    let list = p.effective_rewrite_prs();
    let first = if list.is_empty() {
        None
    } else {
        Some(list[0].clone())
    };
    (list, first)
}

// --- Schema ------------------------------------------------------------------

/// Whether an error of the database says that a column is there already.
pub fn is_duplicate_column(message: &str) -> (r: bool)
    ensures
        r == model::contains(message@, "duplicate column name"@),
{
    text::contains(message, "duplicate column name")
}

// --- Laws --------------------------------------------------------------------

/// Writing a project again preserves when it was first detected, whatever the
/// new project says.
pub proof fn rewriting_preserves_first_detected(stored: Project, new: Project, row: Project)
    requires
        is_row_after(Some(stored), new, row),
    ensures
        row.first_detected == stored.first_detected,
        row.last_seen == new.last_seen,
{
}

/// Writing a project leaves one row for its repository, and every other row as it
/// was.
pub proof fn other_rows_are_untouched(
    before: Seq<Project>,
    new: Project,
    after: Seq<Project>,
    i: int,
    other: Seq<char>,
)
    requires
        rows_are_distinct(before),
        is_upserted(before, new, after, i),
        other != new.repo_url@,
    ensures
        rows_are_distinct(after),
        forall|j: int| is_row_of(after, new.repo_url@, j) <==> j == i,
        forall|j: int| is_row_of(after, other, j) <==> is_row_of(before, other, j),
        forall|j: int| is_row_of(before, other, j) ==> #[trigger] after[j] == before[j],
        before.len() <= after.len() <= before.len() + 1,
{
    lemma_upserted_rows(before, new, after, i);
    assert forall|j: int| is_row_of(after, new.repo_url@, j) implies j == i by {
        if j < i {
            assert(after[j].repo_url@ != after[i].repo_url@);
        } else if i < j {
            assert(after[i].repo_url@ != after[j].repo_url@);
        }
    }
}

/// A measurement that was stored once is never lost.
pub proof fn measurements_are_never_lost(stored: Project, new: Project, row: Project)
    requires
        is_row_after(Some(stored), new, row),
    ensures
        stored.lines_added is Some ==> row.lines_added is Some,
        stored.lines_removed is Some ==> row.lines_removed is Some,
        stored.rewrite_velocity is Some ==> row.rewrite_velocity is Some,
        stored.ai_assist_score is Some ==> row.ai_assist_score is Some,
        stored.unsafe_percentage is Some ==> row.unsafe_percentage is Some,
        stored.commit_count is Some ==> row.commit_count is Some,
        stored.history_status is Some ==> row.history_status is Some,
        stored.ai_agents@.len() > 0 ==> row.ai_agents@.len() > 0,
{
}

/// Writing the same project a second time changes nothing.
pub proof fn writing_twice_is_writing_once(
    stored: Option<Project>,
    new: Project,
    once: Project,
    twice: Project,
)
    requires
        is_row_after(stored, new, once),
        is_row_after(Some(once), new, twice),
    ensures
        types::same_project(twice, once),
{
}

/// What is read of the pull requests of a row that was written is what the project
/// had: its list, or the single one in place of an empty list.
pub proof fn rewrite_prs_survive_the_store(
    stored: Option<Project>,
    new: Project,
    row: Project,
    read: Seq<RewritePr>,
)
    requires
        is_row_after(stored, new, row),
        is_restored(
            row.rewrite_prs@,
            match row.rewrite_pr {
                Some(pr) => Some(pr.title),
                None => None,
            },
            match row.rewrite_pr {
                Some(pr) => Some(pr.url),
                None => None,
            },
            read,
        ),
    ensures
        read == new.rewrite_pr_list(),
        first_pr(read) == row.rewrite_pr,
{
}

} // verus!
