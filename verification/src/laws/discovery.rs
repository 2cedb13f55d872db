//! Laws of the discovery of candidates.

use crate::detect::heuristics;
use crate::detect::heuristics::Discovery;
use crate::github;
use crate::github::{IssueItem, RepoItem};
use crate::order;
use crate::types;
use crate::types::{Candidate, Signal};
use vstd::prelude::*;
use vstd::string::*;

verus! {

/// A candidate carries a signal with this detail and this link.
pub open spec fn carries(c: Candidate, detail: Seq<char>, url: Seq<char>) -> bool {
    exists|k: int|
        0 <= k < c.signals@.len() && (#[trigger] c.signals@[k]).detail@ == detail
            && c.signals@[k].url@ == url
}

/// A candidate holds what it held: its name, at least its stars, and its signals at
/// their places.
pub open spec fn holds_on(before: Candidate, after: Candidate) -> bool {
    &&& after.full_name@ == before.full_name@
    &&& after.stars >= before.stars
    &&& after.signals@.len() >= before.signals@.len()
    &&& after.signals@.take(before.signals@.len() as int) == before.signals@
    &&& before.description is Some ==> after.description == before.description
    &&& after.forks == before.forks
    &&& after.languages@ == before.languages@
}

proof fn lemma_carries(before: Seq<Signal>, s: Signal, after: Candidate)
    requires
        after.signals@ == heuristics::with_signal(before, s),
    ensures
        carries(after, s.detail@, s.url@),
        after.signals@.len() >= before.len(),
        after.signals@.take(before.len() as int) == before,
{
    if heuristics::has_evidence(before, s) {
        let k = choose|k: int|
            0 <= k < before.len() && heuristics::same_evidence(#[trigger] before[k], s);
        assert(after.signals@[k].detail@ == s.detail@);
        assert(before.take(before.len() as int) =~= before);
    } else {
        let k = before.len() as int;
        assert(after.signals@[k] == s);
        assert(before.push(s).take(k) =~= before);
    }
}

/// A repository that a search finds becomes a candidate, or is one already: it
/// carries the label of the search with the link to it, has the most stars that were
/// seen, and holds what it held. Every other candidate is left as it is.
pub proof fn found_repositories_are_candidates(
    before: Seq<Candidate>,
    item: RepoItem,
    label: Seq<char>,
    after: Seq<Candidate>,
)
    requires
        heuristics::holds_repository(before, item, label, after),
    ensures
        exists|i: int|
            0 <= i < after.len() && (#[trigger] after[i]).full_name@ == item.full_name@ && carries(
                after[i],
                label,
                item.html_url@,
            ) && after[i].stars >= item.stargazers_count && after[i].html_url == item.html_url && (
            after[i].description is None ==> item.description is None),
        before.len() <= after.len() <= before.len() + 1,
        forall|j: int| 0 <= j < before.len() ==> holds_on(before[j], #[trigger] after[j]),
        forall|j: int|
            0 <= j < before.len() && before[j].full_name@ != item.full_name@ ==> #[trigger] after[j]
                == before[j],
{
    let (i, entry) = choose|i: int, entry: Candidate| #[trigger]
        heuristics::changes_one(before, after, item.full_name@, i, entry)
            && heuristics::gains_repo(entry, item, label, after[i]);
    let s = choose|s: Signal|
        s.kind@ == "repo-search"@ && s.detail@ == label && s.url == item.html_url
            && after[i].signals@ == #[trigger] heuristics::with_signal(entry.signals@, s);
    lemma_carries(entry.signals@, s, after[i]);
    assert(after[i].full_name@ == item.full_name@);
    assert forall|j: int| 0 <= j < before.len() implies holds_on(before[j], #[trigger] after[j]) by {
        assert(before[j].signals@.take(before[j].signals@.len() as int) =~= before[j].signals@);
    }
}

/// A repository that is new carries the one signal of the search that found it.
pub proof fn new_candidates_carry_what_found_them(
    before: Seq<Candidate>,
    item: RepoItem,
    label: Seq<char>,
    after: Seq<Candidate>,
)
    requires
        heuristics::holds_repository(before, item, label, after),
        forall|j: int|
            0 <= j < before.len() ==> (#[trigger] before[j]).full_name@ != item.full_name@,
    ensures
        after.len() == before.len() + 1,
        ({
            let c = after.last();
            &&& c.full_name@ == item.full_name@
            &&& c.html_url == item.html_url
            &&& c.description == item.description
            &&& c.stars == item.stargazers_count
            &&& c.signals@.len() == 1
            &&& c.signals@[0].kind@ == "repo-search"@
            &&& c.signals@[0].detail@ == label
            &&& c.signals@[0].url == item.html_url
        }),
{
    let (i, entry) = choose|i: int, entry: Candidate| #[trigger]
        heuristics::changes_one(before, after, item.full_name@, i, entry)
            && heuristics::gains_repo(entry, item, label, after[i]);
    assert(i == before.len());
    let s = choose|s: Signal|
        s.kind@ == "repo-search"@ && s.detail@ == label && s.url == item.html_url
            && after[i].signals@ == #[trigger] heuristics::with_signal(entry.signals@, s);
    assert(!heuristics::has_evidence(entry.signals@, s));
}

/// The repository of an issue or pull request that a search finds becomes a
/// candidate, or is one already: it carries the label of the search and the title,
/// with the link to the issue, and holds what it held.
pub proof fn owners_of_issues_are_candidates(
    before: Seq<Candidate>,
    name: Seq<char>,
    item: IssueItem,
    label: Seq<char>,
    after: Seq<Candidate>,
)
    requires
        heuristics::holds_issue(before, item, label, after),
        github::full_name_in(item.repository_url@) == Some(name),
        item.title@.len() <= 120,
    ensures
        exists|i: int|
            0 <= i < after.len() && (#[trigger] after[i]).full_name@ == name && carries(
                after[i],
                label + seq![':', ' '] + item.title@,
                item.html_url@,
            ),
        before.len() <= after.len() <= before.len() + 1,
        forall|j: int| 0 <= j < before.len() ==> holds_on(before[j], #[trigger] after[j]),
        forall|j: int|
            0 <= j < before.len() && before[j].full_name@ != name ==> #[trigger] after[j]
                == before[j],
{
    assert(heuristics::holds_issue_of(before, name, item, label, after));
    let (i, entry) = choose|i: int, entry: Candidate| #[trigger]
        heuristics::changes_one(before, after, name, i, entry) && heuristics::gains_issue(
            entry,
            item,
            label,
            after[i],
        );
    let s = choose|s: Signal|
        s.kind@ == (if item.pull_request {
            "pull-request"@
        } else {
            "issue"@
        }) && s.detail@ == label + ": "@ + heuristics::truncated(item.title@, 120) && s.url
            == item.html_url && after[i].signals@ == #[trigger] heuristics::with_signal(
            entry.signals@,
            s,
        );
    reveal_strlit(": ");
    assert(": "@ =~= seq![':', ' ']);
    lemma_carries(entry.signals@, s, after[i]);
    assert(after[i].full_name@ == name);
    assert forall|j: int| 0 <= j < before.len() implies holds_on(before[j], #[trigger] after[j]) by {
        assert(before[j].signals@.take(before[j].signals@.len() as int) =~= before[j].signals@);
    }
}

/// The signal of an issue says whether it is a pull request.
pub proof fn pull_requests_are_told_from_issues(
    before: Seq<Candidate>,
    name: Seq<char>,
    item: IssueItem,
    label: Seq<char>,
    after: Seq<Candidate>,
)
    requires
        heuristics::holds_issue(before, item, label, after),
        github::full_name_in(item.repository_url@) == Some(name),
        forall|j: int| 0 <= j < before.len() ==> (#[trigger] before[j]).full_name@ != name,
    ensures
        after.len() == before.len() + 1,
        ({
            let c = after.last();
            &&& c.full_name@ == name
            &&& c.stars == 0
            &&& c.description is None
            &&& c.signals@.len() == 1
            &&& c.signals@[0].url == item.html_url
            &&& item.pull_request ==> c.signals@[0].kind@ == "pull-request"@
            &&& !item.pull_request ==> c.signals@[0].kind@ == "issue"@
        }),
{
    assert(heuristics::holds_issue_of(before, name, item, label, after));
    let (i, entry) = choose|i: int, entry: Candidate| #[trigger]
        heuristics::changes_one(before, after, name, i, entry) && heuristics::gains_issue(
            entry,
            item,
            label,
            after[i],
        );
    assert(i == before.len());
    let s = choose|s: Signal|
        s.kind@ == (if item.pull_request {
            "pull-request"@
        } else {
            "issue"@
        }) && s.detail@ == label + ": "@ + heuristics::truncated(item.title@, 120) && s.url
            == item.html_url && after[i].signals@ == #[trigger] heuristics::with_signal(
            entry.signals@,
            s,
        );
    assert(!heuristics::has_evidence(entry.signals@, s));
}

/// Evidence that a candidate has is not added again, and other evidence is.
pub proof fn evidence_is_added_once(signals: Seq<Signal>, signal: Signal, k: int)
    requires
        0 <= k < signals.len(),
    ensures
        signals[k].url@ == signal.url@ && signals[k].detail@ == signal.detail@
            ==> heuristics::with_signal(signals, signal) == signals,
        (forall|i: int|
            0 <= i < signals.len() ==> (#[trigger] signals[i]).url@ != signal.url@
                || signals[i].detail@ != signal.detail@) ==> heuristics::with_signal(
            signals,
            signal,
        ) == signals.push(signal),
{
    if signals[k].url@ == signal.url@ && signals[k].detail@ == signal.detail@ {
        assert(heuristics::same_evidence(signals[k], signal));
    }
}

/// What discovery leaves out ranks no better than what it gives back: no candidate
/// that is left out has more signals, nor as many and more stars. Nothing is left
/// out while there is room.
pub proof fn the_best_candidates_are_kept(
    discovery: Discovery,
    r: Seq<Candidate>,
    max: int,
    i: int,
)
    requires
        heuristics::best_first(discovery.candidates@, r, max),
        max >= 0,
        0 <= i < discovery.candidates@.len(),
    ensures
        ({
            let c = discovery.candidates@[i];
            ||| exists|k: int|
                0 <= k < r.len() && types::same_candidate(#[trigger] r[k], c)
            ||| r.len() == max && forall|k: int|
                0 <= k < r.len() ==> {
                    ||| (#[trigger] r[k]).signals@.len() > c.signals@.len()
                    ||| r[k].signals@.len() == c.signals@.len() && r[k].stars >= c.stars
                }
        }),
        r.len() == if discovery.candidates@.len() <= max {
            discovery.candidates@.len() as int
        } else {
            max
        },
{
    let candidates = discovery.candidates@;
    let keys = heuristics::discovery_keys_of(candidates);
    let order = choose|order: Seq<usize>| #[trigger]
        order::orders(keys, order, candidates.len() as int) && r.len() == (
        if candidates.len() < max {
            candidates.len() as int
        } else {
            max
        }) && forall|k: int|
            0 <= k < r.len() ==> types::same_candidate(
                #[trigger] r[k],
                candidates[order[k] as int],
            );
    order::an_order_is_a_permutation(keys, order);
    assert(order::lists_item(order, i));
    let at = choose|k: int| 0 <= k < order.len() && #[trigger] order[k] == i;
    if at < r.len() {
        assert(types::same_candidate(r[at], candidates[i]));
    } else {
        let c = candidates[i];
        assert(candidates[i].signals.len() == candidates[i].signals@.len());
        assert(keys[i] == heuristics::discovery_key(c));
        assert forall|k: int| 0 <= k < r.len() implies ({
            ||| (#[trigger] r[k]).signals@.len() > c.signals@.len()
            ||| r[k].signals@.len() == c.signals@.len() && r[k].stars >= c.stars
        }) by {
            let a = order[k] as int;
            assert(order::comes_before(keys, order[k] as int, order[at] as int));
            assert(types::same_candidate(r[k], candidates[a]));
            assert(candidates[a].signals.len() == candidates[a].signals@.len());
            assert(keys[a] == heuristics::discovery_key(candidates[a]));
        }
    }
}

/// A title that is cut keeps its beginning and ends in an ellipsis.
pub proof fn long_titles_are_cut(s: Seq<char>, max: int)
    requires
        0 <= max < s.len(),
    ensures
        heuristics::truncated(s, max).len() == max + 1,
        heuristics::truncated(s, max).last() as u32 == 0x2026,
        forall|i: int| 0 <= i < max ==> #[trigger] heuristics::truncated(s, max)[i] == s[i],
{
}

/// A title that is too long is carried as far as a hundred and twenty characters, with
/// an ellipsis.
pub proof fn long_titles_are_carried_in_part(
    before: Seq<Candidate>,
    name: Seq<char>,
    item: IssueItem,
    label: Seq<char>,
    after: Seq<Candidate>,
)
    requires
        heuristics::holds_issue(before, item, label, after),
        github::full_name_in(item.repository_url@) == Some(name),
        item.title@.len() > 120,
    ensures
        exists|i: int|
            0 <= i < after.len() && (#[trigger] after[i]).full_name@ == name && carries(
                after[i],
                label + seq![':', ' '] + item.title@.take(120).push('\u{2026}'),
                item.html_url@,
            ),
{
    assert(heuristics::holds_issue_of(before, name, item, label, after));
    let (i, entry) = choose|i: int, entry: Candidate| #[trigger]
        heuristics::changes_one(before, after, name, i, entry) && heuristics::gains_issue(
            entry,
            item,
            label,
            after[i],
        );
    let s = choose|s: Signal|
        s.kind@ == (if item.pull_request {
            "pull-request"@
        } else {
            "issue"@
        }) && s.detail@ == label + ": "@ + heuristics::truncated(item.title@, 120) && s.url
            == item.html_url && after[i].signals@ == #[trigger] heuristics::with_signal(
            entry.signals@,
            s,
        );
    reveal_strlit(": ");
    assert(": "@ =~= seq![':', ' ']);
    lemma_carries(entry.signals@, s, after[i]);
    assert(after[i].full_name@ == name);
}

} // verus!
