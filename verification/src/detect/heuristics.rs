//! Candidate discovery via GitHub search heuristics.
//!
//! Two families of searches feed the candidate set:
//!
//!   * **Repository searches** — Rust (or mid-migration) repos whose
//!     name/description/README advertise a cross-language migration.
//!   * **Issue/PR searches** — discussions about rewriting a project in Rust.
//!     The *owning* repository becomes the candidate even when it is not yet
//!     primarily Rust. This is how same-product migrations (Astro compiler,
//!     React compiler, …) surface naturally: the signal lives on the original
//!     project, not on a third-party "Rust port of X" marketing page.
//!
//! Each match contributes a [`Signal`] to a per-repository [`Candidate`].
//! Deduplicated by "owner/name". Classification (identity continuity) decides
//! Rewrite vs Replacement; discovery stays wide on purpose.

use crate::detect::classify;
use crate::github;
use crate::github::{IssueItem, RepoItem};
use crate::order;
use crate::order::SortKey;
use crate::text;
use crate::text_model as model;
use crate::types;
use crate::types::{Candidate, Signal};
use vstd::prelude::*;
use vstd::string::*;

verus! {

/// Repository-targeted queries: the raw GitHub search query string, and the
/// human-readable description stored on the resulting signal.
///
/// Prefer identity-continuity / migration phrasing. Keep `language:Rust` for
/// finished migrations, but also run a few **language-agnostic** README/desc
/// queries so mid-migration repos (still mostly Go/TS/…) are not invisible.
/// Replacement-oriented queries stay in the net; the classifier demotes them.
pub const REPO_QUERIES: [(&'static str, &'static str); 23] = [
    (
        "\"rewritten in rust\" language:Rust",
        "repo mentions \"rewritten in Rust\"",
    ),
    (
        "\"rewrite in rust\" language:Rust",
        "repo mentions \"rewrite in Rust\"",
    ),
    (
        "\"rewriting in rust\" language:Rust",
        "repo mentions \"rewriting in Rust\"",
    ),
    (
        "\"migrated to rust\" language:Rust",
        "repo mentions \"migrated to Rust\"",
    ),
    (
        "\"migrating to rust\" language:Rust",
        "repo mentions \"migrating to Rust\"",
    ),
    (
        "\"rewrite of\" language:Rust",
        "repo describes a rewrite of a named project",
    ),
    (
        "\"reimplementation of\" rust language:Rust",
        "repo describes a reimplementation of a named project",
    ),
    (
        "\"reimplementation in rust\" language:Rust",
        "repo mentions \"reimplementation in Rust\"",
    ),
    (
        "\"from go\" \"to rust\" language:Rust",
        "repo describes a from-Go-to-Rust migration",
    ),
    (
        "\"from typescript\" \"to rust\" language:Rust",
        "repo describes a from-TypeScript-to-Rust migration",
    ),
    (
        "\"from javascript\" \"to rust\" language:Rust",
        "repo describes a from-JavaScript-to-Rust migration",
    ),
    (
        "\"from python\" \"to rust\" language:Rust",
        "repo describes a from-Python-to-Rust migration",
    ),
    (
        "\"from c++\" \"to rust\" language:Rust",
        "repo describes a from-C++-to-Rust migration",
    ),
    (
        "\"from java\" \"to rust\" language:Rust",
        "repo describes a from-Java-to-Rust migration",
    ),
    (
        "\"port of\" \"in rust\" language:Rust",
        "repo describes a port to Rust",
    ),
    (
        "\"rust port of\" language:Rust",
        "repo mentions a \"Rust port of\" a named project",
    ),
    (
        "oxidize \"rewrite\" language:Rust",
        "repo references oxidizing/porting to Rust",
    ),
    (
        "\"drop-in replacement\" language:Rust",
        "repo is a drop-in replacement written in Rust",
    ),
    (
        "\"alternative to\" language:Rust stars:>50",
        "repo positions itself as an alternative (Rust)",
    ),
    (
        "\"rewritten in rust\" in:readme,description stars:>100",
        "README/description mentions \"rewritten in Rust\"",
    ),
    (
        "\"rewriting in rust\" in:readme,description stars:>50",
        "README/description mentions \"rewriting in Rust\"",
    ),
    (
        "\"migrating to rust\" in:readme,description stars:>50",
        "README/description mentions \"migrating to Rust\"",
    ),
    (
        "\"porting to rust\" in:readme,description stars:>50",
        "README/description mentions \"porting to Rust\"",
    ),
];

/// Issue/PR-targeted queries. The owning repository becomes a candidate even
/// if it is not (yet) primarily Rust — the main path for discovering official
/// same-product migrations in progress or recently completed.
///
/// Every query carries `is:issue` / `is:pull-request` (GitHub 422 otherwise).
pub const ISSUE_QUERIES: [(&'static str, &'static str); 12] = [
    (
        "\"rewrite in rust\" in:title is:issue",
        "issue titled about rewriting in Rust",
    ),
    (
        "\"rewrite it in rust\" in:title is:issue",
        "issue titled \"rewrite it in Rust\"",
    ),
    (
        "\"rewriting in rust\" in:title is:issue",
        "issue titled about rewriting in Rust",
    ),
    (
        "\"port to rust\" in:title is:issue",
        "issue titled about porting to Rust",
    ),
    (
        "\"migrate to rust\" in:title is:issue",
        "issue titled about migrating to Rust",
    ),
    (
        "\"rewrite in rust\" in:title is:pull-request",
        "PR titled about rewriting in Rust",
    ),
    (
        "\"rewriting in rust\" in:title is:pull-request",
        "PR about rewriting in Rust",
    ),
    (
        "\"port to rust\" in:title is:pull-request",
        "PR titled about porting to Rust",
    ),
    (
        "\"ported to rust\" in:title is:pull-request",
        "PR titled about a port to Rust",
    ),
    (
        "\"migrate to rust\" in:title is:pull-request",
        "PR titled about migrating to Rust",
    ),
    (
        "\"migrated to rust\" in:title is:pull-request",
        "PR titled about a migration to Rust",
    ),
    (
        "rewrite rust in:title is:pull-request stars:>20",
        "PR about a Rust rewrite on a starred repo",
    ),
];

/// Tunable limits for how aggressively discovery paginates.
#[derive(Debug, Clone, Copy, PartialEq, Eq, Structural)]
pub struct DiscoveryConfig {
    pub repo_pages: u32,
    pub issue_pages: u32,
    pub max_candidates: usize,
}

impl Default for DiscoveryConfig {
    fn default() -> (r: Self)
        ensures
            r.repo_pages == 3,
            r.issue_pages == 3,
            r.max_candidates == 500,
    {
        // Wider net so same-product migrations can surface naturally. Search
        // API is ~30 req/min authenticated; callers should still expect a
        // multi-minute discovery phase at these defaults.
        DiscoveryConfig { repo_pages: 3, issue_pages: 3, max_candidates: 500 }
    }
}

// --- Signals -----------------------------------------------------------------

/// Two signals that say the same of the same page.
pub open spec fn same_evidence(a: Signal, b: Signal) -> bool {
    a.url@ == b.url@ && a.detail@ == b.detail@
}

/// The signals hold the same evidence already.
pub open spec fn has_evidence(signals: Seq<Signal>, signal: Signal) -> bool {
    exists|i: int| 0 <= i < signals.len() && same_evidence(#[trigger] signals[i], signal)
}

/// The signals with one more, unless they hold the same evidence already.
pub open spec fn with_signal(signals: Seq<Signal>, signal: Signal) -> Seq<Signal> {
    if has_evidence(signals, signal) {
        signals
    } else {
        signals.push(signal)
    }
}

/// No two signals hold the same evidence.
pub open spec fn evidence_is_distinct(signals: Seq<Signal>) -> bool {
    forall|i: int, j: int|
        0 <= i < j < signals.len() ==> !same_evidence(#[trigger] signals[i], #[trigger] signals[j])
}

/// Add a signal, avoiding duplicates that share the same url + detail.
pub fn push_signal(candidate: &mut Candidate, signal: Signal)
    ensures
        final(candidate).signals@ == with_signal(old(candidate).signals@, signal),
        types::same_candidate(
            *final(candidate),
            Candidate { signals: final(candidate).signals, ..*old(candidate) },
        ),
{
    let mut i: usize = 0;
    while i < candidate.signals.len()
        invariant
            i <= candidate.signals@.len(),
            *candidate == *old(candidate),
            forall|j: int|
                0 <= j < i ==> !same_evidence(#[trigger] candidate.signals@[j], signal),
        decreases candidate.signals@.len() - i,
    {
        if text::equal(candidate.signals[i].url.as_str(), signal.url.as_str()) && text::equal(
            candidate.signals[i].detail.as_str(),
            signal.detail.as_str(),
        ) {
            assert(same_evidence(candidate.signals@[i as int], signal));
            return ;
        }
        i += 1;
    }
    candidate.signals.push(signal);
}

/// At most `max` characters of a text, with an ellipsis where it is cut.
pub open spec fn truncated(s: Seq<char>, max: int) -> Seq<char> {
    if s.len() <= max {
        s
    } else {
        s.take(max).push('\u{2026}')
    }
}

pub fn truncate(s: &str, max: usize) -> (r: String)
    ensures
        r@ == truncated(s@, max as int),
{
    if s.unicode_len() <= max {
        return s.to_owned();
    }
    let mut out = text::prefix_to(s, max).to_owned();
    out.push('\u{2026}');
    out
}

// --- Discovery ---------------------------------------------------------------

/// The candidates found so far, in the order in which they were found.
#[derive(Debug)]
pub struct Discovery {
    pub candidates: Vec<Candidate>,
}

/// Candidate `i` has this name.
pub open spec fn is_named(candidates: Seq<Candidate>, name: Seq<char>, i: int) -> bool {
    0 <= i < candidates.len() && candidates[i].full_name@ == name
}

/// `after` is `before` with one candidate changed: the one of a name, at `i`,
/// which is new where `before` has none of that name. `entry` is what it was.
pub open spec fn changes_one(
    before: Seq<Candidate>,
    after: Seq<Candidate>,
    name: Seq<char>,
    i: int,
    entry: Candidate,
) -> bool {
    &&& 0 <= i < after.len()
    &&& forall|j: int| 0 <= j < before.len() && j != i ==> #[trigger] after[j] == before[j]
    &&& if i < before.len() {
        after.len() == before.len() && entry == before[i] && is_named(before, name, i)
    } else {
        after.len() == before.len() + 1 && i == before.len() && types::is_new_candidate(entry, name) && forall|j: int|
            !is_named(before, name, j)
    }
}

/// A candidate with what a repository search gives.
pub open spec fn gains_repo(
    before: Candidate,
    item: RepoItem,
    label: Seq<char>,
    after: Candidate,
) -> bool {
    &&& after.full_name@ == before.full_name@
    &&& after.html_url == item.html_url
    &&& after.description == if before.description is None {
        item.description
    } else {
        before.description
    }
    &&& after.stars == if before.stars >= item.stargazers_count {
        before.stars
    } else {
        item.stargazers_count
    }
    &&& after.forks == before.forks
    &&& after.open_issues == before.open_issues
    &&& after.open_prs == before.open_prs
    &&& after.languages@ == before.languages@
    &&& exists|s: Signal|
        s.kind@ == "repo-search"@ && s.detail@ == label && s.url == item.html_url && after.signals@
            == #[trigger] with_signal(before.signals@, s)
}

/// A candidate with what an issue search gives.
pub open spec fn gains_issue(
    before: Candidate,
    item: IssueItem,
    label: Seq<char>,
    after: Candidate,
) -> bool {
    &&& after.full_name@ == before.full_name@
    &&& after.html_url == before.html_url
    &&& after.description == before.description
    &&& after.stars == before.stars
    &&& after.forks == before.forks
    &&& after.open_issues == before.open_issues
    &&& after.open_prs == before.open_prs
    &&& after.languages@ == before.languages@
    &&& exists|s: Signal|
        s.kind@ == (if item.pull_request {
            "pull-request"@
        } else {
            "issue"@
        }) && s.detail@ == label + ": "@ + truncated(item.title@, 120) && s.url == item.html_url
            && after.signals@ == #[trigger] with_signal(before.signals@, s)
}

/// The candidates with a repository that a search found.
pub open spec fn holds_repository(
    before: Seq<Candidate>,
    item: RepoItem,
    label: Seq<char>,
    after: Seq<Candidate>,
) -> bool {
    exists|i: int, entry: Candidate| #[trigger]
        changes_one(before, after, item.full_name@, i, entry) && gains_repo(
            entry,
            item,
            label,
            after[i],
        )
}

/// The candidates with the repository of an issue that a search found; no others
/// where the issue names no repository.
pub open spec fn holds_issue(
    before: Seq<Candidate>,
    item: IssueItem,
    label: Seq<char>,
    after: Seq<Candidate>,
) -> bool {
    match github::full_name_in(item.repository_url@) {
        Some(name) => holds_issue_of(before, name, item, label, after),
        None => after == before,
    }
}

/// The candidates with the repository of this name, of which an issue was found.
pub open spec fn holds_issue_of(
    before: Seq<Candidate>,
    name: Seq<char>,
    item: IssueItem,
    label: Seq<char>,
    after: Seq<Candidate>,
) -> bool {
    exists|i: int, entry: Candidate| #[trigger]
        changes_one(before, after, name, i, entry) && gains_issue(entry, item, label, after[i])
}

fn touch_repo(entry: &mut Candidate, item: &RepoItem, label: &str)
    ensures
        gains_repo(*old(entry), *item, label@, *final(entry)),
{
    // Repo search results carry rich metadata; keep the best we've seen.
    entry.html_url = item.html_url.clone();
    if entry.description.is_none() {
        entry.description = item.description.clone();
    }
    if item.stargazers_count > entry.stars {
        entry.stars = item.stargazers_count;
    }
    let signal = Signal {
        kind: "repo-search".to_owned(),
        detail: label.to_owned(),
        url: item.html_url.clone(),
    };
    push_signal(entry, signal);
}

fn touch_issue(entry: &mut Candidate, item: &IssueItem, label: &str)
    ensures
        gains_issue(*old(entry), *item, label@, *final(entry)),
{
    let kind = if item.is_pull_request() {
        "pull-request"
    } else {
        "issue"
    };
    let mut detail = label.to_owned();
    detail.append(": ");
    let title = truncate(item.title.as_str(), 120);
    detail.append(title.as_str());
    let signal = Signal { kind: kind.to_owned(), detail, url: item.html_url.clone() };
    push_signal(entry, signal);
}

/// No name is listed twice, and no candidate holds the same evidence twice.
pub open spec fn are_distinct(candidates: Seq<Candidate>) -> bool {
    &&& forall|i: int, j: int|
        0 <= i < j < candidates.len() ==> (#[trigger] candidates[i]).full_name@ != (
        #[trigger] candidates[j]).full_name@
    &&& forall|i: int|
        0 <= i < candidates.len() ==> evidence_is_distinct((#[trigger] candidates[i]).signals@)
}

/// Every candidate but the one at `except` carries a signal.
pub open spec fn carry_signals(candidates: Seq<Candidate>, except: int) -> bool {
    forall|i: int|
        0 <= i < candidates.len() && i != except ==> (#[trigger] candidates[i]).signals@.len() > 0
}

impl Discovery {
    /// No name is listed twice, no candidate holds the same evidence twice, and
    /// each carries a signal.
    pub open spec fn well_formed(self) -> bool {
        are_distinct(self.candidates@) && carry_signals(self.candidates@, -1)
    }

    pub fn new() -> (r: Self)
        ensures
            r.well_formed(),
            r.candidates@.len() == 0,
    {
        Discovery { candidates: Vec::new() }
    }

    /// The place of a candidate, which is added where there is none.
    fn entry(&mut self, name: &str) -> (r: usize)
        requires
            old(self).well_formed(),
        ensures
            are_distinct(final(self).candidates@),
            carry_signals(final(self).candidates@, r as int),
            ({
                let before = old(self).candidates@;
                let after = final(self).candidates@;
                &&& is_named(after, name@, r as int)
                &&& changes_one(before, after, name@, r as int, after[r as int])
            }),
    {
        let ghost before = self.candidates@;
        let mut i: usize = 0;
        while i < self.candidates.len()
            invariant
                i <= self.candidates@.len(),
                self.candidates@ == before,
                *self == *old(self),
                self.well_formed(),
                forall|j: int| 0 <= j < i ==> !is_named(before, name@, j),
            decreases self.candidates@.len() - i,
        {
            if text::equal(self.candidates[i].full_name.as_str(), name) {
                return i;
            }
            i += 1;
        }
        let mut c = Candidate::default();
        c.full_name = name.to_owned();
        self.candidates.push(c);
        assert forall|j: int, k: int| 0 <= j < k < self.candidates@.len() implies (
        #[trigger] self.candidates@[j]).full_name@ != (
        #[trigger] self.candidates@[k]).full_name@ by {
            if k == before.len() {
                assert(!is_named(before, name@, j));
            }
        }
        i
    }

    /// Add a repository that a search with this label found.
    pub fn add_repository(&mut self, item: &RepoItem, label: &str)
        requires
            old(self).well_formed(),
        ensures
            final(self).well_formed(),
            holds_repository(old(self).candidates@, *item, label@, final(self).candidates@),
    {
        let i: usize = self.entry(item.full_name.as_str());
        let ghost mid = self.candidates@;
        let ghost entry = mid[i as int];
        touch_repo(&mut self.candidates[i], item, label);
        proof {
            lemma_update_keeps_form(mid, self.candidates@, i as int);
        }
        assert(changes_one(
            old(self).candidates@,
            self.candidates@,
            item.full_name@,
            i as int,
            entry,
        ));
    }

    /// Add the repository of an issue or pull request that a search with this
    /// label found; nothing where the issue names no repository.
    pub fn add_issue(&mut self, item: &IssueItem, label: &str)
        requires
            old(self).well_formed(),
        ensures
            final(self).well_formed(),
            holds_issue(old(self).candidates@, *item, label@, final(self).candidates@),
    {
        let name = match item.repo_full_name() {
            Some(name) => name,
            None => return ,
        };
        let i: usize = self.entry(name.as_str());
        let ghost mid = self.candidates@;
        let ghost entry = mid[i as int];
        touch_issue(&mut self.candidates[i], item, label);
        proof {
            lemma_update_keeps_form(mid, self.candidates@, i as int);
        }
        assert(changes_one(old(self).candidates@, self.candidates@, name@, i as int, entry));
        assert(holds_issue_of(old(self).candidates@, name@, *item, label@, self.candidates@));
    }

    /// The candidates with the most corroborating signals, then the most stars,
    /// first; at most `max` of them.
    pub fn finish(&self, max: usize) -> (r: Vec<Candidate>)
        ensures
            best_first(self.candidates@, r@, max as int),
    {
        let keys = discovery_keys(&self.candidates);
        let order = order::stable_order(&keys);
        let n: usize = if order.len() < max {
            order.len()
        } else {
            max
        };
        let mut out: Vec<Candidate> = Vec::new();
        let mut k: usize = 0;
        while k < n
            invariant
                k <= n,
                n <= order@.len(),
                order@.len() == self.candidates@.len(),
                forall|x: int|
                    0 <= x < order@.len() ==> (#[trigger] order@[x]) < self.candidates@.len(),
                out@.len() == k,
                forall|x: int|
                    0 <= x < k ==> types::same_candidate(
                        #[trigger] out@[x],
                        self.candidates@[order@[x] as int],
                    ),
            decreases n - k,
        {
            let i: usize = order[k];
            assert(order@[k as int] < self.candidates@.len());
            out.push(self.candidates[i].clone());
            k += 1;
        }
        out
    }
}

/// A list whose candidate `i` gained evidence is still well-formed.
proof fn lemma_update_keeps_form(before: Seq<Candidate>, after: Seq<Candidate>, i: int)
    requires
        0 <= i < before.len(),
        after.len() == before.len(),
        forall|j: int| 0 <= j < before.len() && j != i ==> #[trigger] after[j] == before[j],
        after[i].full_name@ == before[i].full_name@,
        exists|s: Signal| after[i].signals@ == #[trigger] with_signal(before[i].signals@, s),
        are_distinct(before),
        carry_signals(before, i),
    ensures
        are_distinct(after),
        carry_signals(after, -1),
{
    let s = choose|s: Signal| after[i].signals@ == #[trigger] with_signal(before[i].signals@, s);
    adding_evidence_keeps_it_distinct(before[i].signals@, s);
    assert forall|j: int, k: int| 0 <= j < k < after.len() implies (#[trigger] after[j]).full_name@
        != (#[trigger] after[k]).full_name@ by {
        assert(before[j].full_name@ != before[k].full_name@);
    }
    assert forall|j: int| 0 <= j < after.len() implies evidence_is_distinct(
        (#[trigger] after[j]).signals@,
    ) by {
        assert(evidence_is_distinct(before[j].signals@));
    }
}

pub open spec fn discovery_key(c: Candidate) -> SortKey {
    SortKey {
        first: (0 - c.signals.len()) as i128,
        second: (0 - c.stars) as i128,
        third: 0,
        fourth: 0,
    }
}

pub open spec fn discovery_keys_of(candidates: Seq<Candidate>) -> Seq<SortKey> {
    Seq::new(candidates.len(), |i: int| discovery_key(candidates[i]))
}

/// `r` holds the candidates by signals, then by stars, most first and `max` at
/// most; equals keep their order.
pub open spec fn best_first(candidates: Seq<Candidate>, r: Seq<Candidate>, max: int) -> bool {
    exists|order: Seq<usize>| #[trigger]
        order::orders(discovery_keys_of(candidates), order, candidates.len() as int) && r.len() == (
        if candidates.len() < max {
            candidates.len() as int
        } else {
            max
        }) && forall|k: int|
            0 <= k < r.len() ==> types::same_candidate(
                #[trigger] r[k],
                candidates[order[k] as int],
            )
}

fn discovery_keys(candidates: &Vec<Candidate>) -> (r: Vec<SortKey>)
    ensures
        r@ == discovery_keys_of(candidates@),
{
    let mut keys: Vec<SortKey> = Vec::new();
    let mut i: usize = 0;
    while i < candidates.len()
        invariant
            i <= candidates@.len(),
            keys@ == discovery_keys_of(candidates@).take(i as int),
        decreases candidates@.len() - i,
    {
        let c = &candidates[i];
        keys.push(
            SortKey {
                first: 0 - c.signals.len() as i128,
                second: 0 - c.stars as i128,
                third: 0,
                fourth: 0,
            },
        );
        assert(keys@ =~= discovery_keys_of(candidates@).take(i + 1));
        i += 1;
    }
    assert(keys@ =~= discovery_keys_of(candidates@));
    keys
}

// --- Laws --------------------------------------------------------------------

proof fn lemma_label(label: Seq<char>, start: Seq<char>)
    requires
        model::all_ascii(label),
        start.len() <= label.len(),
        forall|i: int| 0 <= i < start.len() ==> model::ascii_lower(label[i]) == #[trigger] start[i],
    ensures
        model::starts_with(model::lowercase(label), start),
{
    model::lemma_lowered_ascii(label);
    assert(model::ascii_lowercase(label).take(start.len() as int) =~= start);
}

/// What a repository search finds counts as strong wording only where its label
/// speaks of a tool.
pub proof fn search_labels_are_known(k: int)
    requires
        0 <= k < REPO_QUERIES@.len(),
    ensures
        classify::label_wording(model::lowercase(REPO_QUERIES@[k].1@)),
        classify::wording_advertises(model::lowercase(REPO_QUERIES@[k].1@))
            == classify::targets_tool(model::lowercase(REPO_QUERIES@[k].1@)),
{
    reveal_strlit("repo describes");
    reveal_strlit("repo mentions");
    reveal_strlit("repo positions");
    reveal_strlit("repo references");
    reveal_strlit("repo is a ");
    reveal_strlit("readme/description mentions");
    if k == 0 {
        reveal_strlit("repo mentions \"rewritten in Rust\"");
        lemma_label("repo mentions \"rewritten in Rust\""@, classify::GENERIC_STARTS@[1]@);
    } else if k == 1 {
        reveal_strlit("repo mentions \"rewrite in Rust\"");
        lemma_label("repo mentions \"rewrite in Rust\""@, classify::GENERIC_STARTS@[1]@);
    } else if k == 2 {
        reveal_strlit("repo mentions \"rewriting in Rust\"");
        lemma_label("repo mentions \"rewriting in Rust\""@, classify::GENERIC_STARTS@[1]@);
    } else if k == 3 {
        reveal_strlit("repo mentions \"migrated to Rust\"");
        lemma_label("repo mentions \"migrated to Rust\""@, classify::GENERIC_STARTS@[1]@);
    } else if k == 4 {
        reveal_strlit("repo mentions \"migrating to Rust\"");
        lemma_label("repo mentions \"migrating to Rust\""@, classify::GENERIC_STARTS@[1]@);
    } else if k == 5 {
        reveal_strlit("repo describes a rewrite of a named project");
        lemma_label("repo describes a rewrite of a named project"@, classify::GENERIC_STARTS@[0]@);
    } else if k == 6 {
        reveal_strlit("repo describes a reimplementation of a named project");
        lemma_label(
            "repo describes a reimplementation of a named project"@,
            classify::GENERIC_STARTS@[0]@,
        );
    } else if k == 7 {
        reveal_strlit("repo mentions \"reimplementation in Rust\"");
        lemma_label("repo mentions \"reimplementation in Rust\""@, classify::GENERIC_STARTS@[1]@);
    } else if k == 8 {
        reveal_strlit("repo describes a from-Go-to-Rust migration");
        lemma_label("repo describes a from-Go-to-Rust migration"@, classify::GENERIC_STARTS@[0]@);
    } else if k == 9 {
        reveal_strlit("repo describes a from-TypeScript-to-Rust migration");
        lemma_label(
            "repo describes a from-TypeScript-to-Rust migration"@,
            classify::GENERIC_STARTS@[0]@,
        );
    } else if k == 10 {
        reveal_strlit("repo describes a from-JavaScript-to-Rust migration");
        lemma_label(
            "repo describes a from-JavaScript-to-Rust migration"@,
            classify::GENERIC_STARTS@[0]@,
        );
    } else if k == 11 {
        reveal_strlit("repo describes a from-Python-to-Rust migration");
        lemma_label(
            "repo describes a from-Python-to-Rust migration"@,
            classify::GENERIC_STARTS@[0]@,
        );
    } else if k == 12 {
        reveal_strlit("repo describes a from-C++-to-Rust migration");
        lemma_label("repo describes a from-C++-to-Rust migration"@, classify::GENERIC_STARTS@[0]@);
    } else if k == 13 {
        reveal_strlit("repo describes a from-Java-to-Rust migration");
        lemma_label("repo describes a from-Java-to-Rust migration"@, classify::GENERIC_STARTS@[0]@);
    } else if k == 14 {
        reveal_strlit("repo describes a port to Rust");
        lemma_label("repo describes a port to Rust"@, classify::GENERIC_STARTS@[0]@);
    } else if k == 15 {
        reveal_strlit("repo mentions a \"Rust port of\" a named project");
        lemma_label(
            "repo mentions a \"Rust port of\" a named project"@,
            classify::GENERIC_STARTS@[1]@,
        );
    } else if k == 16 {
        reveal_strlit("repo references oxidizing/porting to Rust");
        lemma_label("repo references oxidizing/porting to Rust"@, classify::LABEL_STARTS@[0]@);
    } else if k == 17 {
        reveal_strlit("repo is a drop-in replacement written in Rust");
        lemma_label("repo is a drop-in replacement written in Rust"@, classify::LABEL_STARTS@[1]@);
    } else if k == 18 {
        reveal_strlit("repo positions itself as an alternative (Rust)");
        lemma_label(
            "repo positions itself as an alternative (Rust)"@,
            classify::GENERIC_STARTS@[2]@,
        );
    } else if k == 19 {
        reveal_strlit("README/description mentions \"rewritten in Rust\"");
        lemma_label(
            "README/description mentions \"rewritten in Rust\""@,
            classify::LABEL_STARTS@[2]@,
        );
    } else if k == 20 {
        reveal_strlit("README/description mentions \"rewriting in Rust\"");
        lemma_label(
            "README/description mentions \"rewriting in Rust\""@,
            classify::LABEL_STARTS@[2]@,
        );
    } else if k == 21 {
        reveal_strlit("README/description mentions \"migrating to Rust\"");
        lemma_label(
            "README/description mentions \"migrating to Rust\""@,
            classify::LABEL_STARTS@[2]@,
        );
    } else if k == 22 {
        reveal_strlit("README/description mentions \"porting to Rust\"");
        lemma_label(
            "README/description mentions \"porting to Rust\""@,
            classify::LABEL_STARTS@[2]@,
        );
    }
}

/// Adding a signal never makes two signals of the same evidence.
pub proof fn adding_evidence_keeps_it_distinct(signals: Seq<Signal>, signal: Signal)
    requires
        evidence_is_distinct(signals),
    ensures
        evidence_is_distinct(with_signal(signals, signal)),
{
}

/// Adding a signal twice is adding it once.
pub proof fn adding_twice_is_adding_once(signals: Seq<Signal>, signal: Signal)
    ensures
        with_signal(with_signal(signals, signal), signal) == with_signal(signals, signal),
        has_evidence(with_signal(signals, signal), signal),
{
    if !has_evidence(signals, signal) {
        let after = signals.push(signal);
        assert(same_evidence(after[signals.len() as int], signal));
    }
}

/// A truncated text has at most one character more than allowed, and one that is
/// short enough is left as it is.
pub proof fn truncation_is_bounded(s: Seq<char>, max: int)
    requires
        max >= 0,
    ensures
        truncated(s, max).len() <= max + 1,
        s.len() <= max ==> truncated(s, max) == s,
        truncated(s, max).take(
            if s.len() <= max {
                s.len() as int
            } else {
                max
            },
        ) == s.take(
            if s.len() <= max {
                s.len() as int
            } else {
                max
            },
        ),
{
}

/// More signals or, of as many, no fewer stars.
pub open spec fn ranks_before(a: Candidate, b: Candidate) -> bool {
    a.signals@.len() > b.signals@.len() || (a.signals@.len() == b.signals@.len() && a.stars
        >= b.stars)
}

/// What discovery gives back is bounded, names no repository twice, has a signal
/// for each, and has the candidates with more signals first, and of those with as
/// many the ones with more stars.
pub proof fn discovered_candidates_are_distinct_and_ordered(
    discovery: Discovery,
    r: Seq<Candidate>,
    max: int,
)
    requires
        discovery.well_formed(),
        best_first(discovery.candidates@, r, max),
        max >= 0,
    ensures
        r.len() <= max,
        forall|i: int, j: int|
            0 <= i < j < r.len() ==> (#[trigger] r[i]).full_name@ != (#[trigger] r[j]).full_name@
                && ranks_before(r[i], r[j]),
        forall|i: int| 0 <= i < r.len() ==> (#[trigger] r[i]).signals@.len() > 0,
{
    let candidates = discovery.candidates@;
    let keys = discovery_keys_of(candidates);
    let order = choose|order: Seq<usize>| #[trigger]
        order::orders(keys, order, candidates.len() as int) && r.len() == (
        if candidates.len() < max {
            candidates.len() as int
        } else {
            max
        }) && forall|k: int|
            0 <= k < r.len() ==> types::same_candidate(
                #[trigger] r[k],
                candidates[order[k] as int],
            );
    order::an_order_is_a_permutation(keys, order);
    assert forall|i: int, j: int| 0 <= i < j < r.len() implies (#[trigger] r[i]).full_name@ != (
    #[trigger] r[j]).full_name@ && ranks_before(r[i], r[j]) by {
        let a = order[i] as int;
        let b = order[j] as int;
        assert(order::comes_before(keys, order[i] as int, order[j] as int));
        assert(types::same_candidate(r[i], candidates[a]));
        assert(types::same_candidate(r[j], candidates[b]));
        assert(a != b);
        if a < b {
            assert(candidates[a].full_name@ != candidates[b].full_name@);
        } else {
            assert(candidates[b].full_name@ != candidates[a].full_name@);
        }
        assert(candidates[a].signals.len() == candidates[a].signals@.len());
        assert(candidates[b].signals.len() == candidates[b].signals@.len());
        assert(keys[a] == discovery_key(candidates[a]));
        assert(keys[b] == discovery_key(candidates[b]));
    }
    assert forall|i: int| 0 <= i < r.len() implies (#[trigger] r[i]).signals@.len() > 0 by {
        assert(types::same_candidate(r[i], candidates[order[i] as int]));
    }
}

} // verus!
