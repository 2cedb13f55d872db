//! Detect massive language transitions by walking full commit history.
//!
//! One `git log --numstat` pass (oldest-first) maintains a running net line count
//! per language. Composition is sampled over time, the steepest Rust rise gives
//! the transition window, and the early and late segments give the verdict.

use crate::detect::commits;
use crate::detect::enrich;
use crate::detect::enrich::CommitEnrichment;
use crate::detect::git_history;
use crate::detect::git_history::{Change, Commit, CommitRecord, FileChange};
use crate::double;
use crate::double::Double;
use crate::sums;
use crate::text;
use crate::text_model as model;
use vstd::prelude::*;
use vstd::string::*;

verus! {

/// Outcome of analyzing commit history for language shifts.
#[derive(Debug)]
pub struct HistoryAnalysis {
    /// Rewrite-window metrics suitable for storage / the site UI.
    pub enrichment: CommitEnrichment,
    /// Dominant non-Rust language in the early segment of history.
    pub from_language: Option<String>,
    /// Rust share (0–100) in the first 20% of analyzed commits.
    pub rust_pct_before: Option<Double>,
    /// Rust share (0–100) in the last 20% of analyzed commits.
    pub rust_pct_after: Option<Double>,
    /// Absolute swing in Rust share between before/after segments.
    pub transition_magnitude: Option<Double>,
    /// Total commits walked (after clone depth cap).
    pub total_commits: u32,
    /// True when we found a strong cross-language shift (not incidental Rust growth).
    pub strong_transition: bool,
}

/// Two analyses hold the same data.
pub open spec fn same_history(a: HistoryAnalysis, b: HistoryAnalysis) -> bool {
    &&& enrich::same_enrichment(a.enrichment, b.enrichment)
    &&& a.from_language == b.from_language
    &&& a.rust_pct_before == b.rust_pct_before
    &&& a.rust_pct_after == b.rust_pct_after
    &&& a.transition_magnitude == b.transition_magnitude
    &&& a.total_commits == b.total_commits
    &&& a.strong_transition == b.strong_transition
}

/// Nothing is known.
pub open spec fn is_blank_history(h: HistoryAnalysis) -> bool {
    &&& enrich::is_blank(h.enrichment)
    &&& h.from_language is None
    &&& h.rust_pct_before is None
    &&& h.rust_pct_after is None
    &&& h.transition_magnitude is None
    &&& h.total_commits == 0
    &&& !h.strong_transition
}

impl Clone for HistoryAnalysis {
    fn clone(&self) -> (r: Self)
        ensures
            same_history(r, *self),
    {
        HistoryAnalysis {
            enrichment: self.enrichment.clone(),
            from_language: self.from_language.clone(),
            rust_pct_before: self.rust_pct_before,
            rust_pct_after: self.rust_pct_after,
            transition_magnitude: self.transition_magnitude,
            total_commits: self.total_commits,
            strong_transition: self.strong_transition,
        }
    }
}

impl Default for HistoryAnalysis {
    fn default() -> (r: Self)
        ensures
            is_blank_history(r),
    {
        HistoryAnalysis {
            enrichment: CommitEnrichment::default(),
            from_language: None,
            rust_pct_before: None,
            rust_pct_after: None,
            transition_magnitude: None,
            total_commits: 0,
            strong_transition: false,
        }
    }
}

// --- Thresholds, as doubles --------------------------------------------------

/// Minimum Rust-share swing to call a transition "strong": 25.
pub const MIN_TRANSITION_MAGNITUDE: u64 = 0x4039_0000_0000_0000;

/// Minimum late-history Rust share for a strong transition: 40.
pub const MIN_RUST_AFTER_FOR_STRONG: u64 = 0x4044_0000_0000_0000;

/// Early-history Rust share must be below this to count as a migration (not
/// born-in-Rust ports): 35.
pub const MAX_RUST_BEFORE_FOR_MIGRATION: u64 = 0x4041_8000_0000_0000;

/// Minimum rise in Rust share between early and late segments: 5.
pub const MIN_RUST_RISE: u64 = 0x4014_0000_0000_0000;

/// Minimum share for a language to count as "dominant" in the early segment: 15.
pub const MIN_DOMINANT_SHARE: u64 = 0x402e_0000_0000_0000;

/// Minimum swing that lets a displaced language be named: 10.
pub const MIN_NAMED_MAGNITUDE: u64 = 0x4024_0000_0000_0000;

/// Minimum slope between two samples that marks a transition: 5.
pub const MIN_SLOPE: u64 = 0x4014_0000_0000_0000;

/// A window reaches back to samples with less Rust than this: 25.
pub const LOW_RUST_SHARE: u64 = 0x4039_0000_0000_0000;

/// A window reaches on to samples with more Rust than this: 50.
pub const HIGH_RUST_SHARE: u64 = 0x4049_0000_0000_0000;

/// A hundred.
pub const ALL_RUST: u64 = 0x4059_0000_0000_0000;

/// Minimum net code lines before composition ratios are meaningful.
pub const MIN_NET_LINES: u128 = 500;

/// A stored history that shows a strong transition. Shares are stored only of a
/// strong transition, and rounded to a tenth: an early share that reads as the
/// threshold was below it.
pub open spec fn stored_is_strong(
    magnitude: Option<Double>,
    rust_before: Option<Double>,
    rust_after: Option<Double>,
    from_language: bool,
) -> bool {
    &&& double::double_or(magnitude, 0).at_least(Double { bits: MIN_TRANSITION_MAGNITUDE })
    &&& double::double_or(rust_after, 0).at_least(Double { bits: MIN_RUST_AFTER_FOR_STRONG })
    &&& from_language
    &&& Double { bits: MAX_RUST_BEFORE_FOR_MIGRATION }.at_least(
        double::double_or(rust_before, ALL_RUST),
    )
}

/// Reconstruct `strong_transition` from persisted history fields.
pub fn strong_transition_from_stored(
    magnitude: Option<Double>,
    rust_before: Option<Double>,
    rust_after: Option<Double>,
    from_language: Option<&str>,
) -> (r: bool)
    ensures
        r == stored_is_strong(magnitude, rust_before, rust_after, from_language is Some),
{
    double::or_default(magnitude, 0).is_at_least(Double { bits: MIN_TRANSITION_MAGNITUDE })
        && double::or_default(rust_after, 0).is_at_least(
        Double { bits: MIN_RUST_AFTER_FOR_STRONG },
    ) && from_language.is_some() && Double { bits: MAX_RUST_BEFORE_FOR_MIGRATION }.is_at_least(
        double::or_default(rust_before, ALL_RUST),
    )
}

// --- Options -----------------------------------------------------------------

/// The longest time span, in nanoseconds: `u64::MAX` seconds and a nanosecond
/// less than one more.
pub const MAX_NANOS: u128 = 18446744073709551615999999999;

/// Options for commit-history analysis (timeouts, macro sampling).
#[derive(Debug, Clone, Copy, PartialEq, Eq, Structural)]
pub struct HistoryOptions {
    /// In nanoseconds.
    pub per_step_timeout: u128,
    /// Wall-clock budget multiplier applied to `per_step_timeout`.
    pub budget_multiplier: u32,
    /// Use deeper clone strategies and denser composition sampling.
    pub macro_mode: bool,
    /// Max composition sample points (400 default, 1200 macro).
    pub sample_points: usize,
}

impl HistoryOptions {
    /// The options of an analysis: deep for exemplars, or standard.
    pub open spec fn of(per_step: u128, macro_mode: bool) -> Self {
        HistoryOptions {
            per_step_timeout: per_step,
            budget_multiplier: if macro_mode {
                15
            } else {
                3
            },
            macro_mode,
            sample_points: if macro_mode {
                1200
            } else {
                400
            },
        }
    }

    /// The wall-clock budget of a repository, in nanoseconds.
    pub open spec fn budget(self) -> int {
        if self.per_step_timeout * self.budget_multiplier <= MAX_NANOS {
            self.per_step_timeout * self.budget_multiplier
        } else {
            MAX_NANOS as int
        }
    }

    pub fn standard(per_step: u128) -> (r: Self)
        ensures
            r == HistoryOptions::of(per_step, false),
            r.per_step_timeout == per_step,
            r.budget_multiplier == 3,
            !r.macro_mode,
            r.sample_points == 400,
    {
        HistoryOptions {
            per_step_timeout: per_step,
            budget_multiplier: 3,
            macro_mode: false,
            sample_points: 400,
        }
    }

    pub fn macro_(per_step: u128) -> (r: Self)
        ensures
            r == HistoryOptions::of(per_step, true),
            r.per_step_timeout == per_step,
            r.budget_multiplier == 15,
            r.macro_mode,
            r.sample_points == 1200,
    {
        HistoryOptions {
            per_step_timeout: per_step,
            budget_multiplier: 15,
            macro_mode: true,
            sample_points: 1200,
        }
    }

    /// The wall-clock budget of a repository, in nanoseconds: the multiplied
    /// timeout, or the longest time span where that is longer.
    pub fn repo_budget(&self) -> (r: u128)
        ensures
            r == self.budget(),
            r == if self.per_step_timeout * self.budget_multiplier <= MAX_NANOS {
                self.per_step_timeout * self.budget_multiplier
            } else {
                MAX_NANOS as int
            },
    {
        match self.per_step_timeout.checked_mul(self.budget_multiplier as u128) {
            Some(budget) => if budget <= MAX_NANOS {
                budget
            } else {
                MAX_NANOS
            },
            None => MAX_NANOS,
        }
    }
}

// --- Composition over time ---------------------------------------------------

/// The net lines of one language.
#[derive(Debug)]
pub struct LineCount {
    pub language: String,
    pub lines: i64,
}

impl Clone for LineCount {
    fn clone(&self) -> (r: Self)
        ensures
            r == *self,
    {
        LineCount { language: self.language.clone(), lines: self.lines }
    }
}

/// Net line counts per language.
#[derive(Debug)]
pub struct LineCounts {
    pub entries: Vec<LineCount>,
}

pub open spec fn has_entry(entries: Seq<LineCount>, language: Seq<char>, i: int) -> bool {
    0 <= i < entries.len() && entries[i].language@ == language
}

/// Some entry is of this language.
pub open spec fn lists(entries: Seq<LineCount>, language: Seq<char>) -> bool {
    exists|i: int| has_entry(entries, language, i)
}

/// The lines of the entry of a language.
pub open spec fn entry_lines(entries: Seq<LineCount>, language: Seq<char>) -> int {
    entries[choose|i: int| has_entry(entries, language, i)].lines as int
}

/// The lines of each language that entries list.
pub open spec fn counts_in(entries: Seq<LineCount>) -> Map<Seq<char>, int> {
    Map::new(
        |language: Seq<char>| lists(entries, language),
        |language: Seq<char>| entry_lines(entries, language),
    )
}

impl View for LineCounts {
    type V = Map<Seq<char>, int>;

    open spec fn view(&self) -> Map<Seq<char>, int> {
        counts_in(self.entries@)
    }
}

impl LineCounts {
    /// No language is listed twice, and no count is negative.
    pub open spec fn well_formed(self) -> bool {
        &&& forall|i: int, j: int|
            0 <= i < j < self.entries@.len() ==> (#[trigger] self.entries@[i]).language@ != (
            #[trigger] self.entries@[j]).language@
        &&& forall|i: int| 0 <= i < self.entries@.len() ==> (#[trigger] self.entries@[i]).lines >= 0
    }
}

impl Clone for LineCounts {
    fn clone(&self) -> (r: Self)
        ensures
            r@ == self@,
            r.well_formed() == self.well_formed(),
            r.entries@ == self.entries@,
    {
        let r = LineCounts { entries: self.entries.clone() };
        assert(r.entries@ == self.entries@);
        assert(r@ =~= self@);
        r
    }
}

/// The net lines of a language; zero where none are counted.
pub open spec fn lines_of(net: Map<Seq<char>, int>, language: Seq<char>) -> int {
    if net.dom().contains(language) {
        net[language]
    } else {
        0
    }
}

pub open spec fn fits_i64(x: int) -> bool {
    i64::MIN <= x <= i64::MAX
}

/// A count of lines as a signed number; the upper half of the range wraps.
pub open spec fn signed(x: u64) -> int {
    if x <= i64::MAX {
        x as int
    } else {
        x - 0x1_0000_0000_0000_0000
    }
}

pub open spec fn at_least_zero(x: int) -> int {
    if x < 0 {
        0
    } else {
        x
    }
}

/// The net lines after a file change; none where a number does not fit.
pub open spec fn after_change(net: Map<Seq<char>, int>, change: Change) -> Option<
    Map<Seq<char>, int>,
> {
    let delta = signed(change.added) - signed(change.removed);
    match git_history::language_of(change.path) {
        Some(language) => {
            let lines = lines_of(net, language) + delta;
            if !fits_i64(delta) || (delta != 0 && !fits_i64(lines)) {
                None
            } else if delta == 0 {
                Some(net)
            } else {
                Some(net.insert(language, at_least_zero(lines)))
            }
        },
        None => Some(net),
    }
}

/// The net lines after a row of file changes.
pub open spec fn after_changes(net: Map<Seq<char>, int>, changes: Seq<Change>) -> Option<
    Map<Seq<char>, int>,
>
    decreases changes.len(),
{
    if changes.len() == 0 {
        Some(net)
    } else {
        match after_changes(net, changes.drop_last()) {
            Some(before) => after_change(before, changes.last()),
            None => None,
        }
    }
}

/// The net lines after the first `n` commits.
pub open spec fn composition(commits: Seq<Commit>, n: int) -> Option<Map<Seq<char>, int>>
    decreases n,
{
    if n <= 0 {
        Some(Map::empty())
    } else {
        match composition(commits, n - 1) {
            Some(before) => after_changes(before, commits[n - 1].files),
            None => None,
        }
    }
}

fn find_language(net: &LineCounts, language: &str) -> (r: Option<usize>)
    requires
        net.well_formed(),
    ensures
        match r {
            Some(i) => has_entry(net.entries@, language@, i as int) && net@.dom().contains(
                language@,
            ) && net@[language@] == net.entries@[i as int].lines,
            None => !net@.dom().contains(language@) && forall|i: int|
                !has_entry(net.entries@, language@, i),
        },
{
    let mut i: usize = 0;
    while i < net.entries.len()
        invariant
            i <= net.entries@.len(),
            net.well_formed(),
            forall|j: int| 0 <= j < i ==> (#[trigger] net.entries@[j]).language@ != language@,
        decreases net.entries@.len() - i,
    {
        if text::equal(net.entries[i].language.as_str(), language) {
            assert(has_entry(net.entries@, language@, i as int));
            proof {
                let c = choose|k: int| has_entry(net.entries@, language@, k);
                assert(has_entry(net.entries@, language@, c));
                assert(c == i) by {
                    if c < i {
                        assert(net.entries@[c].language@ != net.entries@[i as int].language@);
                    } else if i < c {
                        assert(net.entries@[i as int].language@ != net.entries@[c].language@);
                    }
                }
            }
            return Some(i);
        }
        i += 1;
    }
    None
}

fn set_lines(net: &mut LineCounts, language: &str, lines: i64)
    requires
        old(net).well_formed(),
        lines >= 0,
    ensures
        final(net).well_formed(),
        final(net)@ == old(net)@.insert(language@, lines as int),
{
    let ghost before = net.entries@;
    let ghost map = net@;
    match find_language(net, language) {
        Some(i) => {
            net.entries.set(i, LineCount { language: language.to_owned(), lines });
            proof {
                lemma_set_entry(before, net.entries@, language@, lines, i as int);
            }
            assert(net@ =~= map.insert(language@, lines as int));
        },
        None => {
            net.entries.push(LineCount { language: language.to_owned(), lines });
            proof {
                lemma_set_entry(before, net.entries@, language@, lines, before.len() as int);
            }
            assert(net@ =~= map.insert(language@, lines as int));
        },
    }
}

/// Two lists of entries that differ only at `i`, where one holds the lines of a
/// language that the other holds there or nowhere.
proof fn lemma_set_entry(
    before: Seq<LineCount>,
    after: Seq<LineCount>,
    language: Seq<char>,
    lines: i64,
    i: int,
)
    requires
        0 <= i <= before.len(),
        after.len() == if i < before.len() {
            before.len()
        } else {
            before.len() + 1
        },
        after[i].language@ == language,
        after[i].lines == lines,
        i < before.len() ==> before[i].language@ == language,
        i == before.len() ==> forall|j: int| !has_entry(before, language, j),
        forall|j: int| 0 <= j < before.len() && j != i ==> #[trigger] after[j] == before[j],
        forall|j: int, k: int|
            0 <= j < k < before.len() ==> (#[trigger] before[j]).language@ != (
            #[trigger] before[k]).language@,
    ensures
        forall|j: int, k: int|
            0 <= j < k < after.len() ==> (#[trigger] after[j]).language@ != (
            #[trigger] after[k]).language@,
        forall|l: Seq<char>|
            #[trigger] lists(after, l) <==> (l == language || lists(before, l)),
        entry_lines(after, language) == lines,
        forall|l: Seq<char>|
            l != language && lists(before, l) ==> #[trigger] entry_lines(after, l) == entry_lines(
                before,
                l,
            ),
{
    assert forall|j: int, k: int| 0 <= j < k < after.len() implies (#[trigger] after[j]).language@
        != (#[trigger] after[k]).language@ by {
        if k == before.len() {
            assert(!has_entry(before, language, j));
        }
    }
    assert(has_entry(after, language, i));
    let c = choose|j: int| has_entry(after, language, j);
    assert(has_entry(after, language, c));
    assert(c == i);
    assert forall|l: Seq<char>|
        #[trigger] lists(after, l) <==> (l == language || lists(before, l)) by {
        if lists(after, l) {
            let j = choose|j: int| has_entry(after, l, j);
            if j != i {
                assert(has_entry(before, l, j));
            }
        }
        if l != language && lists(before, l) {
            let j = choose|j: int| has_entry(before, l, j);
            assert(has_entry(after, l, j));
        }
    }
    assert forall|l: Seq<char>|
        l != language && lists(before, l) implies #[trigger] entry_lines(after, l) == entry_lines(
        before,
        l,
    ) by {
        let b = choose|j: int| has_entry(before, l, j);
        assert(has_entry(after, l, b));
        let a = choose|j: int| has_entry(after, l, j);
        assert(has_entry(after, l, a));
        assert(a == b);
    }
}

fn to_signed(x: u64) -> (r: i64)
    ensures
        r == signed(x),
{
    if x <= i64::MAX as u64 {
        x as i64
    } else {
        (x as i128 - 0x1_0000_0000_0000_0000) as i64
    }
}

/// Whether the net lines after a file change fit; if so, they are in `net`.
pub fn apply_file(net: &mut LineCounts, f: &FileChange) -> (r: bool)
    requires
        old(net).well_formed(),
    ensures
        final(net).well_formed(),
        match after_change(old(net)@, f@) {
            Some(after) => r && final(net)@ == after,
            None => !r,
        },
{
    let language = match git_history::language_from_path(f.path.as_str()) {
        Some(language) => language,
        None => return true,
    };
    let delta: i64 = match to_signed(f.added).checked_sub(to_signed(f.removed)) {
        Some(delta) => delta,
        None => return false,
    };
    if delta == 0 {
        return true;
    }
    let held: i64 = match find_language(net, language) {
        Some(i) => net.entries[i].lines,
        None => 0,
    };
    let lines: i64 = match held.checked_add(delta) {
        Some(lines) => lines,
        None => return false,
    };
    set_lines(net, language, if lines < 0 {
        0
    } else {
        lines
    });
    true
}

/// Whether the net lines after a commit fit; if so, they are in `net`.
pub fn apply_commit(net: &mut LineCounts, commit: &CommitRecord) -> (r: bool)
    requires
        old(net).well_formed(),
    ensures
        final(net).well_formed(),
        match after_changes(old(net)@, commit@.files) {
            Some(after) => r && final(net)@ == after,
            None => !r,
        },
{
    let ghost start = net@;
    let ghost changes = commit@.files;
    let mut i: usize = 0;
    while i < commit.files.len()
        invariant
            i <= commit.files@.len(),
            start == old(net)@,
            changes == commit@.files,
            net.well_formed(),
            after_changes(start, changes.take(i as int)) == Some(net@),
        decreases commit.files@.len() - i,
    {
        assert(changes.take(i + 1).drop_last() =~= changes.take(i as int));
        assert(changes.take(i + 1).last() == commit.files@[i as int]@);
        if !apply_file(net, &commit.files[i]) {
            proof {
                lemma_changes_overflow(start, changes, i + 1);
            }
            return false;
        }
        i += 1;
    }
    assert(changes.take(changes.len() as int) =~= changes);
    true
}

proof fn lemma_changes_overflow(net: Map<Seq<char>, int>, changes: Seq<Change>, i: int)
    requires
        0 <= i <= changes.len(),
        after_changes(net, changes.take(i)) is None,
    ensures
        after_changes(net, changes) is None,
    decreases changes.len() - i,
{
    if i < changes.len() {
        assert(changes.take(i + 1).drop_last() =~= changes.take(i));
        lemma_changes_overflow(net, changes, i + 1);
    } else {
        assert(changes.take(i) =~= changes);
    }
}

proof fn lemma_composition_overflow(commits: Seq<Commit>, i: int, n: int)
    requires
        i <= n,
        composition(commits, i) is None,
    ensures
        composition(commits, n) is None,
    decreases n - i,
{
    if i < n {
        lemma_composition_overflow(commits, i, n - 1);
    }
}

/// Net line counts per language after walking commits `0..=idx`.
#[derive(Debug)]
pub struct CompositionSample {
    pub idx: usize,
    pub net: LineCounts,
}

/// The most samples that are taken.
pub open spec fn sample_cap(max_points: int) -> int {
    if max_points < 100 {
        100
    } else {
        max_points
    }
}

/// The distance between sampled commits: as far as keeps the samples, with that
/// of the last commit, within the cap.
pub open spec fn sample_step(n: int, max_points: int) -> int {
    let cap = sample_cap(max_points);
    if n <= cap {
        1
    } else {
        (n + cap - 2) / (cap - 1)
    }
}

/// A commit that is sampled: the last one, and every `step`-th from the first.
pub open spec fn is_sampled(idx: int, n: int, step: int) -> bool {
    idx + 1 == n || idx % step == 0
}

/// The sampled commits before `upto`, in order.
pub open spec fn sampled(n: int, step: int, upto: int) -> Seq<int>
    decreases upto,
{
    if upto <= 0 {
        Seq::empty()
    } else if is_sampled(upto - 1, n, step) {
        sampled(n, step, upto - 1).push(upto - 1)
    } else {
        sampled(n, step, upto - 1)
    }
}

/// The commits of a history of `n` that are sampled, in order.
pub open spec fn sample_indices(n: int, max_points: int) -> Seq<int> {
    sampled(n, sample_step(n, max_points), n)
}

/// The samples hold the composition at each of the sampled commits.
pub open spec fn samples_hold(
    samples: Seq<CompositionSample>,
    commits: Seq<Commit>,
    indices: Seq<int>,
) -> bool {
    &&& samples.len() == indices.len()
    &&& forall|k: int|
        0 <= k < samples.len() ==> {
            &&& (#[trigger] samples[k]).idx == indices[k]
            &&& samples[k].net.well_formed()
            &&& composition(commits, samples[k].idx + 1) == Some(samples[k].net@)
        }
}

/// Net line counts at the sampled commits; none where a count leaves the range
/// of `i64`.
pub fn sample_composition(commits: &[CommitRecord], max_points: usize) -> (r: Option<
    Vec<CompositionSample>,
>)
    ensures
        match r {
            Some(samples) => {
                let n = commits@.len() as int;
                &&& composition(git_history::commit_views(commits@), n) is Some
                &&& samples_hold(
                    samples@,
                    git_history::commit_views(commits@),
                    sample_indices(n, max_points as int),
                )
                &&& samples@.len() <= sample_cap(max_points as int)
            },
            None => composition(
                git_history::commit_views(commits@),
                commits@.len() as int,
            ) is None,
        },
{
    let n: usize = commits.len();
    let ghost views = git_history::commit_views(commits@);
    // Sample every commit for small repos; subsample for large ones.
    let cap: usize = if max_points < 100 {
        100
    } else {
        max_points
    };
    proof {
        if n > cap {
            lemma_step(n as int, cap as int);
        }
        lemma_samples_are_capped(n as int, max_points as int);
    }
    let step: usize = if n <= cap {
        1
    } else if n % (cap - 1) == 0 {
        n / (cap - 1)
    } else {
        n / (cap - 1) + 1
    };
    let mut net = LineCounts { entries: Vec::new() };
    let mut samples: Vec<CompositionSample> = Vec::new();
    let mut idx: usize = 0;
    assert(net@ =~= Map::empty()) by {
        assert forall|l: Seq<char>| !(#[trigger] lists(net.entries@, l)) by {}
    }
    while idx < n
        invariant
            idx <= n,
            n == commits@.len(),
            step >= 1,
            step == sample_step(n as int, max_points as int),
            views == git_history::commit_views(commits@),
            net.well_formed(),
            composition(views, idx as int) == Some(net@),
            samples_hold(samples@, views, sampled(n as int, step as int, idx as int)),
        decreases n - idx,
    {
        assert(views[idx as int] == commits@[idx as int]@);
        if !apply_commit(&mut net, &commits[idx]) {
            proof {
                lemma_composition_overflow(views, idx + 1, n as int);
            }
            return None;
        }
        if idx + 1 == n || idx % step == 0 {
            samples.push(CompositionSample { idx, net: net.clone() });
        }
        idx += 1;
    }
    Some(samples)
}

/// The distance, by quotient and remainder.
proof fn lemma_step(n: int, cap: int)
    requires
        cap >= 100,
        n > cap,
    ensures
        (n + cap - 2) / (cap - 1) == if n % (cap - 1) == 0 {
            n / (cap - 1)
        } else {
            n / (cap - 1) + 1
        },
        1 <= n / (cap - 1) < n,
        (n + cap - 2) / (cap - 1) * (cap - 1) >= n,
{
    let d = cap - 1;
    let q = n / d;
    let r = n % d;
    assert(n == d * q + r && 0 <= r < d) by (nonlinear_arith)
        requires
            d >= 1,
            q == n / d,
            r == n % d,
    ;
    assert(1 <= q < n) by (nonlinear_arith)
        requires
            n == d * q + r,
            0 <= r < d,
            d >= 99,
            n > d,
    ;
    if r == 0 {
        assert((n + d - 1) / d == q) by (nonlinear_arith)
            requires
                n == d * q,
                d >= 1,
        ;
        assert(q * d >= n) by (nonlinear_arith)
            requires
                n == d * q,
        ;
    } else {
        assert((n + d - 1) / d == q + 1) by (nonlinear_arith)
            requires
                n == d * q + r,
                0 < r < d,
        ;
        assert((q + 1) * d >= n) by (nonlinear_arith)
            requires
                n == d * q + r,
                r < d,
        ;
    }
}

/// Before the last commit, every `step`-th one is sampled.
proof fn lemma_sampled_evenly(n: int, step: int, upto: int)
    requires
        0 <= upto < n,
        step >= 1,
    ensures
        ({
            let len = sampled(n, step, upto).len();
            &&& len <= upto
            &&& upto > 0 ==> (len - 1) * step < upto
            &&& len * step >= upto
        }),
    decreases upto,
{
    if upto > 0 {
        lemma_sampled_evenly(n, step, upto - 1);
        let len = sampled(n, step, upto - 1).len() as int;
        let idx = upto - 1;
        assert((len - 1) * step < idx) by (nonlinear_arith)
            requires
                idx > 0 ==> (len - 1) * step < idx,
                idx == 0 ==> len == 0,
                idx >= 0,
                step >= 1,
        ;
        if is_sampled(idx, n, step) {
            let m = idx / step;
            assert(idx == m * step) by (nonlinear_arith)
                requires
                    idx % step == 0,
                    step >= 1,
                    m == idx / step,
            ;
            assert(m <= len) by (nonlinear_arith)
                requires
                    m * step <= len * step,
                    step >= 1,
            ;
            assert(len - 1 < m) by (nonlinear_arith)
                requires
                    (len - 1) * step < m * step,
                    step >= 1,
            ;
            assert((len + 1) * step >= upto) by (nonlinear_arith)
                requires
                    len * step == idx,
                    upto == idx + 1,
                    step >= 1,
            ;
        } else {
            assert(0int % step == 0) by (nonlinear_arith)
                requires
                    step >= 1,
            ;
            assert(len * step != idx) by (nonlinear_arith)
                requires
                    idx % step != 0,
                    step >= 1,
            ;
        }
    }
}

/// No more commits are sampled than the cap allows.
proof fn lemma_samples_are_capped(n: int, max_points: int)
    requires
        n >= 0,
        max_points >= 0,
    ensures
        sample_step(n, max_points) >= 1,
        sample_indices(n, max_points).len() <= sample_cap(max_points),
{
    let cap = sample_cap(max_points);
    let step = sample_step(n, max_points);
    if n > cap {
        lemma_step(n, cap);
    }
    if n > 0 {
        lemma_sampled_evenly(n, step, n - 1);
        let len = sampled(n, step, n - 1).len() as int;
        if n > cap {
            assert(len - 1 < cap - 1) by (nonlinear_arith)
                requires
                    (len - 1) * step < n - 1,
                    step * (cap - 1) >= n,
                    step >= 1,
            ;
        }
    }
}

/// The net lines of all languages together.
pub open spec fn total_lines(net: Map<Seq<char>, int>) -> int
    decreases net.dom().len(),
{
    if net.dom().finite() && net.dom().len() > 0 {
        let language = net.dom().choose();
        at_least_zero(net[language]) + total_lines(net.remove(language))
    } else {
        0
    }
}

/// The net lines of the entries that have any.
pub open spec fn positive_lines(entries: Seq<LineCount>) -> int
    decreases entries.len(),
{
    if entries.len() == 0 {
        0
    } else {
        positive_lines(entries.drop_last()) + at_least_zero(entries.last().lines as int)
    }
}

/// The languages of a total can be counted in any order.
pub proof fn lemma_total_without(net: Map<Seq<char>, int>, language: Seq<char>)
    requires
        net.dom().finite(),
        net.dom().contains(language),
    ensures
        total_lines(net) == at_least_zero(net[language]) + total_lines(net.remove(language)),
    decreases net.dom().len(),
{
    let first = net.dom().choose();
    assert(net.dom().contains(first));
    if first != language {
        lemma_total_without(net.remove(first), language);
        lemma_total_without(net.remove(language), first);
        assert(net.remove(first).remove(language) =~= net.remove(language).remove(first));
    }
}

/// Entries of distinct languages have the total of their counts.
proof fn lemma_total_of_entries(entries: Seq<LineCount>)
    requires
        forall|i: int, j: int|
            0 <= i < j < entries.len() ==> (#[trigger] entries[i]).language@ != (
            #[trigger] entries[j]).language@,
    ensures
        counts_in(entries).dom().finite(),
        total_lines(counts_in(entries)) == positive_lines(entries),
    decreases entries.len(),
{
    let net = counts_in(entries);
    if entries.len() == 0 {
        assert forall|l: Seq<char>| !(#[trigger] lists(entries, l)) by {}
        assert(net.dom() =~= Set::empty());
    } else {
        let rest = entries.drop_last();
        let last = entries.last();
        lemma_total_of_entries(rest);
        assert forall|j: int| !has_entry(rest, last.language@, j) by {
            if has_entry(rest, last.language@, j) {
                assert(entries[j].language@ != entries[entries.len() - 1].language@);
            }
        }
        lemma_set_entry(rest, entries, last.language@, last.lines, rest.len() as int);
        assert(net.dom() =~= counts_in(rest).dom().insert(last.language@));
        assert(net.remove(last.language@) =~= counts_in(rest));
        lemma_total_without(net, last.language@);
    }
}

pub fn net_total(net: &LineCounts) -> (r: u128)
    ensures
        r == positive_lines(net.entries@),
        net.well_formed() ==> r == total_lines(net@),
{
    let n: usize = net.entries.len();
    let mut total: u128 = 0;
    let mut i: usize = 0;
    assert(positive_lines(net.entries@.take(0)) == 0);
    while i < n
        invariant
            i <= n,
            n == net.entries@.len(),
            total == positive_lines(net.entries@.take(i as int)),
            total <= i * u64::MAX,
        decreases n - i,
    {
        assert(net.entries@.take(i + 1).drop_last() =~= net.entries@.take(i as int));
        proof {
            sums::lemma_room(i, total as int);
        }
        if net.entries[i].lines > 0 {
            total = total + net.entries[i].lines as u128;
        }
        i += 1;
    }
    assert(net.entries@.take(n as int) =~= net.entries@);
    proof {
        if net.well_formed() {
            lemma_total_of_entries(net.entries@);
        }
    }
    total
}

/// The net lines of Rust.
pub fn rust_lines(net: &LineCounts) -> (r: i64)
    requires
        net.well_formed(),
    ensures
        r == lines_of(net@, "Rust"@),
        r >= 0,
{
    proof {
        lemma_lines_are_counted(net, "Rust"@);
    }
    count_of(net, "Rust")
}

// --- Transition window -------------------------------------------------------

/// The Rust share at a sample, and its rise since the sample before.
#[derive(Debug, Clone, Copy, PartialEq, Eq, Structural)]
pub struct SharePoint {
    pub idx: usize,
    pub share: Double,
    /// Of no meaning at the first sample.
    pub rise: Double,
}

/// The share of Rust in a composition, in percent; none of nothing.
pub open spec fn rust_share_of(net: Map<Seq<char>, int>) -> Double {
    if total_lines(net) <= 0 {
        Double { bits: 0 }
    } else {
        double::percent(lines_of(net, "Rust"@), total_lines(net))
    }
}

/// The share of Rust in a composition.
pub fn rust_share(net: &LineCounts) -> (r: Double)
    requires
        net.well_formed(),
    ensures
        r == rust_share_of(net@),
{
    let total: u128 = net_total(net);
    if total == 0 {
        return Double { bits: 0 };
    }
    double::percentage(rust_lines(net) as u128, total)
}

/// The compositions of some samples.
pub open spec fn nets_of(samples: Seq<CompositionSample>) -> Seq<Map<Seq<char>, int>> {
    Seq::new(samples.len(), |k: int| samples[k].net@)
}

/// Point `k` of these compositions, at these commits.
pub open spec fn point_at(indices: Seq<int>, nets: Seq<Map<Seq<char>, int>>, k: int) -> SharePoint {
    SharePoint {
        idx: indices[k] as usize,
        share: rust_share_of(nets[k]),
        rise: if k == 0 {
            Double { bits: 0 }
        } else {
            double::difference(rust_share_of(nets[k]), rust_share_of(nets[k - 1]))
        },
    }
}

/// The points of some compositions, at these commits.
pub open spec fn points_at(indices: Seq<int>, nets: Seq<Map<Seq<char>, int>>) -> Seq<SharePoint> {
    Seq::new(indices.len(), |k: int| point_at(indices, nets, k))
}

/// The Rust share at each sample, and its rise since the sample before.
pub fn share_points(samples: &Vec<CompositionSample>) -> (r: Vec<SharePoint>)
    requires
        forall|k: int| 0 <= k < samples@.len() ==> (#[trigger] samples@[k]).net.well_formed(),
    ensures
        r@ == points_at(
            Seq::new(samples@.len(), |k: int| samples@[k].idx as int),
            nets_of(samples@),
        ),
{
    let ghost indices = Seq::new(samples@.len(), |k: int| samples@[k].idx as int);
    let ghost nets = nets_of(samples@);
    let mut points: Vec<SharePoint> = Vec::new();
    let mut before = Double { bits: 0 };
    let mut k: usize = 0;
    while k < samples.len()
        invariant
            k <= samples@.len(),
            forall|j: int| 0 <= j < samples@.len() ==> (#[trigger] samples@[j]).net.well_formed(),
            indices == Seq::new(samples@.len(), |j: int| samples@[j].idx as int),
            nets == nets_of(samples@),
            k > 0 ==> before == rust_share_of(nets[k - 1]),
            points@.len() == k,
            forall|j: int| 0 <= j < k ==> #[trigger] points@[j] == point_at(indices, nets, j),
        decreases samples@.len() - k,
    {
        let share = rust_share(&samples[k].net);
        let rise = if k == 0 {
            Double { bits: 0 }
        } else {
            double::minus(share, before)
        };
        points.push(SharePoint { idx: samples[k].idx, share, rise });
        before = share;
        k += 1;
    }
    points
}

/// The points follow each other among `n` commits.
pub open spec fn points_in_order(points: Seq<SharePoint>, n: int) -> bool {
    &&& forall|i: int, j: int|
        0 <= i < j < points.len() ==> (#[trigger] points[i]).idx < (#[trigger] points[j]).idx
    &&& forall|i: int| 0 <= i < points.len() ==> (#[trigger] points[i]).idx < n
}

/// Point `k` ends the steepest rise, the first one of equals.
pub open spec fn is_steepest(points: Seq<SharePoint>, k: int) -> bool {
    &&& 1 <= k < points.len()
    &&& points[k].rise.above(Double { bits: 0 })
    &&& forall|j: int|
        1 <= j < points.len() ==> !(#[trigger] points[j]).rise.above(points[k].rise)
    &&& forall|j: int| 1 <= j < k ==> !(#[trigger] points[j]).rise.at_least(points[k].rise)
}

/// The point that ends the steepest rise, if that marks a transition.
pub open spec fn peak(points: Seq<SharePoint>) -> Option<int> {
    if exists|k: int| is_steepest(points, k) && points[k].rise.at_least(Double { bits: MIN_SLOPE }) {
        Some(
            choose|k: int|
                is_steepest(points, k) && points[k].rise.at_least(Double { bits: MIN_SLOPE }),
        )
    } else {
        None
    }
}

/// The earliest commit, no later than `from`, that `from` or one of the first
/// `m` points with little Rust stands for.
pub open spec fn earliest(points: Seq<SharePoint>, from: int, m: int) -> int
    decreases m,
{
    if m <= 0 {
        from
    } else {
        let so_far = earliest(points, from, m - 1);
        let p = points[m - 1];
        if p.idx <= from && (Double { bits: LOW_RUST_SHARE }).above(p.share) && p.idx < so_far {
            p.idx as int
        } else {
            so_far
        }
    }
}

/// The latest commit, no earlier than `to`, that `to` or one of the first `m`
/// points with much Rust stands for.
pub open spec fn latest(points: Seq<SharePoint>, to: int, m: int) -> int
    decreases m,
{
    if m <= 0 {
        to
    } else {
        let so_far = latest(points, to, m - 1);
        let p = points[m - 1];
        if p.idx >= to && p.share.above(Double { bits: HIGH_RUST_SHARE }) && p.idx > so_far {
            p.idx as int
        } else {
            so_far
        }
    }
}

/// The Rust lines that file changes add, and the lines of other languages that
/// they remove.
pub open spec fn churn_of(changes: Seq<Change>) -> nat
    decreases changes.len(),
{
    if changes.len() == 0 {
        0
    } else {
        let last = changes.last();
        churn_of(changes.drop_last()) + match git_history::language_of(last.path) {
            Some(language) => if language == "Rust"@ {
                last.added as nat
            } else {
                last.removed as nat
            },
            None => 0,
        }
    }
}

/// The commits before `upto` with transition churn, in order.
pub open spec fn churning(commits: Seq<Commit>, upto: int) -> Seq<int>
    decreases upto,
{
    if upto <= 0 {
        Seq::empty()
    } else if churn_of(commits[upto - 1].files) > 0 {
        churning(commits, upto - 1).push(upto - 1)
    } else {
        churning(commits, upto - 1)
    }
}

/// The numbers from `from` to `to`.
pub open spec fn span(from: int, to: int) -> Seq<int> {
    Seq::new((to + 1 - from) as nat, |i: int| from + i)
}

/// The commits of the transition window: from the first time with little Rust
/// before the steepest rise to the last time with much Rust after it. Where
/// nothing rises clearly, the commits with transition churn.
pub open spec fn window_of(commits: Seq<Commit>, points: Seq<SharePoint>) -> Seq<int> {
    if commits.len() == 0 || points.len() < 2 {
        Seq::empty()
    } else {
        match peak(points) {
            Some(k) => span(
                earliest(points, points[k - 1].idx as int, points.len() as int),
                latest(points, points[k].idx as int, points.len() as int),
            ),
            None => churning(commits, commits.len() as int),
        }
    }
}

/// `window` holds these commits.
pub open spec fn picks(
    window: Seq<&CommitRecord>,
    commits: Seq<CommitRecord>,
    indices: Seq<int>,
) -> bool {
    &&& window.len() == indices.len()
    &&& forall|i: int| 0 <= i < indices.len() ==> 0 <= #[trigger] indices[i] < commits.len()
    &&& forall|i: int| 0 <= i < window.len() ==> *(#[trigger] window[i]) == commits[indices[i]]
}

fn find_peak(points: &Vec<SharePoint>) -> (r: Option<usize>)
    ensures
        match r {
            Some(k) => peak(points@) == Some(k as int) && is_steepest(points@, k as int),
            None => peak(points@) is None,
        },
{
    let zero = Double { bits: 0 };
    let mut best: Option<usize> = None;
    let mut k: usize = 1;
    while k < points.len()
        invariant
            1 <= k,
            k <= points@.len() || k == 1,
            zero == (Double { bits: 0 }),
            match best {
                Some(b) => {
                    &&& 1 <= b < k
                    &&& b < points@.len()
                    &&& points@[b as int].rise.above(zero)
                    &&& forall|j: int|
                        1 <= j < k ==> !(#[trigger] points@[j]).rise.above(points@[b as int].rise)
                    &&& forall|j: int|
                        1 <= j < b ==> !(#[trigger] points@[j]).rise.at_least(
                            points@[b as int].rise,
                        )
                },
                None => forall|j: int| 1 <= j < k ==> !(#[trigger] points@[j]).rise.above(zero),
            },
        decreases points@.len() - k,
    {
        let so_far = match best {
            Some(b) => points[b].rise,
            None => zero,
        };
        if points[k].rise.is_above(so_far) {
            best = Some(k);
        }
        k += 1;
    }
    match best {
        Some(b) => {
            assert(is_steepest(points@, b as int));
            proof {
                lemma_steepest_unique(points@, b as int);
            }
            if points[b].rise.is_at_least(Double { bits: MIN_SLOPE }) {
                Some(b)
            } else {
                None
            }
        },
        None => {
            assert forall|j: int| !is_steepest(points@, j) by {}
            None
        },
    }
}

pub proof fn lemma_steepest_unique(points: Seq<SharePoint>, k: int)
    requires
        is_steepest(points, k),
    ensures
        forall|j: int| is_steepest(points, j) ==> j == k,
{
    assert forall|j: int| is_steepest(points, j) implies j == k by {
        assert(!points[j].rise.above(points[k].rise));
        assert(!points[k].rise.above(points[j].rise));
        if j < k {
            assert(!points[j].rise.at_least(points[k].rise));
        } else if k < j {
            assert(!points[k].rise.at_least(points[j].rise));
        }
    }
}

/// The Rust lines that a commit adds and the other lines that it removes,
/// `u64::MAX` at most.
pub fn transition_churn(c: &CommitRecord) -> (r: u64)
    ensures
        r == if churn_of(c@.files) <= u64::MAX {
            churn_of(c@.files) as u64
        } else {
            u64::MAX
        },
{
    let n: usize = c.files.len();
    let ghost changes = c@.files;
    let mut total: u128 = 0;
    let mut i: usize = 0;
    assert(churn_of(changes.take(0)) == 0);
    while i < n
        invariant
            i <= n,
            n == c.files@.len(),
            changes == c@.files,
            total == churn_of(changes.take(i as int)),
            total <= i * u64::MAX,
        decreases n - i,
    {
        assert(changes.take(i + 1).drop_last() =~= changes.take(i as int));
        assert(changes.take(i + 1).last() == c.files@[i as int]@);
        proof {
            sums::lemma_room(i, total as int);
        }
        let f = &c.files[i];
        if let Some(language) = git_history::language_from_path(f.path.as_str()) {
            if text::equal(language, "Rust") {
                total = total + f.added as u128;
            } else {
                total = total + f.removed as u128;
            }
        }
        i += 1;
    }
    assert(changes.take(n as int) =~= changes);
    if total <= u64::MAX as u128 {
        total as u64
    } else {
        u64::MAX
    }
}

fn churning_commits<'a>(commits: &'a [CommitRecord]) -> (r: Vec<&'a CommitRecord>)
    ensures
        picks(
            r@,
            commits@,
            churning(git_history::commit_views(commits@), commits@.len() as int),
        ),
{
    let ghost views = git_history::commit_views(commits@);
    let mut out: Vec<&'a CommitRecord> = Vec::new();
    let mut i: usize = 0;
    while i < commits.len()
        invariant
            i <= commits@.len(),
            views == git_history::commit_views(commits@),
            picks(out@, commits@, churning(views, i as int)),
        decreases commits@.len() - i,
    {
        assert(views[i as int] == commits@[i as int]@);
        if transition_churn(&commits[i]) > 0 {
            out.push(&commits[i]);
        }
        i += 1;
    }
    out
}

/// Commits between the steepest rise in Rust share (25% → 50% crossings).
pub fn transition_window_commits<'a>(
    commits: &'a [CommitRecord],
    points: &Vec<SharePoint>,
) -> (r: Vec<&'a CommitRecord>)
    requires
        points_in_order(points@, commits@.len() as int),
    ensures
        picks(r@, commits@, window_of(git_history::commit_views(commits@), points@)),
{
    let mut out: Vec<&'a CommitRecord> = Vec::new();
    let m: usize = points.len();
    if commits.len() == 0 || m < 2 {
        return out;
    }
    let k: usize = match find_peak(points) {
        Some(k) => k,
        None => return churning_commits(commits),
    };
    let from: usize = points[k - 1].idx;
    let to: usize = points[k].idx;
    let mut start: usize = from;
    let mut end: usize = to;
    let mut i: usize = 0;
    while i < m
        invariant
            i <= m,
            m == points@.len(),
            points_in_order(points@, commits@.len() as int),
            start == earliest(points@, from as int, i as int),
            end == latest(points@, to as int, i as int),
            start <= from,
            to <= end < commits@.len(),
        decreases m - i,
    {
        let p = points[i];
        if p.idx <= from && (Double { bits: LOW_RUST_SHARE }).is_above(p.share) && p.idx < start {
            start = p.idx;
        }
        if p.idx >= to && p.share.is_above(Double { bits: HIGH_RUST_SHARE }) && p.idx > end {
            end = p.idx;
        }
        i += 1;
    }
    let ghost indices = span(start as int, end as int);
    assert(start <= end);
    let mut j: usize = start;
    while j <= end
        invariant
            start <= j <= end + 1,
            end < commits@.len(),
            indices == span(start as int, end as int),
            out@.len() == j - start,
            forall|x: int|
                0 <= x < out@.len() ==> *(#[trigger] out@[x]) == commits@[start + x],
        decreases end + 1 - j,
    {
        out.push(&commits[j]);
        j += 1;
    }
    out
}

// --- Verdict -----------------------------------------------------------------

/// The number of samples of the early and of the late segment: a fifth of them,
/// rounded up, and at least one.
pub open spec fn segment_size(samples: int) -> int {
    if samples == 0 {
        1
    } else {
        (samples + 4) / 5
    }
}

pub fn segment_len(samples: usize) -> (r: usize)
    ensures
        r == segment_size(samples as int),
        samples > 0 ==> 0 < r <= samples,
{
    if samples == 0 {
        1
    } else if samples % 5 == 0 {
        samples / 5
    } else {
        samples / 5 + 1
    }
}

/// The early and the late segment of some samples: where each begins, and where
/// it has ended.
pub fn segments(samples: usize) -> (r: ((usize, usize), (usize, usize)))
    requires
        samples > 0,
    ensures
        r.0 == (0usize, segment_size(samples as int) as usize),
        r.1 == ((samples - segment_size(samples as int)) as usize, samples),
{
    let len: usize = segment_len(samples);
    ((0, len), (samples - len, samples))
}

/// The shares of a language in the first `n` of some compositions together; those
/// without any lines count for none.
pub open spec fn share_sum(nets: Seq<Map<Seq<char>, int>>, language: Seq<char>, n: int) -> Double
    decreases n,
{
    if n <= 0 {
        Double { bits: 0 }
    } else {
        let net = nets[n - 1];
        let before = share_sum(nets, language, n - 1);
        if lines_of(net, language) <= 0 {
            before
        } else {
            double::sum(before, double::percent(lines_of(net, language), total_lines(net)))
        }
    }
}

/// The average share of a language.
pub open spec fn average_share(nets: Seq<Map<Seq<char>, int>>, language: Seq<char>) -> Double {
    double::quotient(
        share_sum(nets, language, nets.len() as int),
        double::integer(nets.len() as int),
    )
}

/// The lines of a language are among those of all languages.
proof fn lemma_lines_are_counted(net: &LineCounts, language: Seq<char>)
    requires
        net.well_formed(),
    ensures
        0 <= lines_of(net@, language) <= total_lines(net@),
        lines_of(net@, language) <= i64::MAX,
{
    lemma_total_of_entries(net.entries@);
    lemma_total_nonnegative(net@);
    if lists(net.entries@, language) {
        let i = choose|i: int| has_entry(net.entries@, language, i);
        assert(net.entries@[i].lines >= 0);
        lemma_total_without(net@, language);
        lemma_total_nonnegative(net@.remove(language));
    }
}

proof fn lemma_total_nonnegative(net: Map<Seq<char>, int>)
    ensures
        total_lines(net) >= 0,
    decreases net.dom().len(),
{
    if net.dom().finite() && net.dom().len() > 0 {
        lemma_total_nonnegative(net.remove(net.dom().choose()));
    }
}

/// The average share of a language in the samples from `from` up to `to`.
pub fn average_of(samples: &Vec<CompositionSample>, from: usize, to: usize, language: &str) -> (r:
    Double)
    requires
        from < to <= samples@.len(),
        forall|k: int| 0 <= k < samples@.len() ==> (#[trigger] samples@[k]).net.well_formed(),
    ensures
        r == average_share(nets_of(samples@).subrange(from as int, to as int), language@),
{
    let ghost nets = nets_of(samples@).subrange(from as int, to as int);
    let mut total = Double { bits: 0 };
    let mut i: usize = from;
    while i < to
        invariant
            from <= i <= to <= samples@.len(),
            forall|k: int| 0 <= k < samples@.len() ==> (#[trigger] samples@[k]).net.well_formed(),
            nets == nets_of(samples@).subrange(from as int, to as int),
            total == share_sum(nets, language@, i - from),
        decreases to - i,
    {
        let net = &samples[i].net;
        assert(net.well_formed());
        assert(nets[i - from] == net@);
        proof {
            lemma_lines_are_counted(net, language@);
        }
        let lines: i64 = count_of(net, language);
        if lines > 0 {
            total = double::plus(total, double::percentage(lines as u128, net_total(net)));
        }
        i += 1;
    }
    double::over(total, double::from_integer((to - from) as u128))
}

/// The net lines of a language.
fn count_of(net: &LineCounts, language: &str) -> (r: i64)
    requires
        net.well_formed(),
    ensures
        r == lines_of(net@, language@),
{
    match find_language(net, language) {
        Some(i) => net.entries[i].lines,
        None => 0,
    }
}

/// The share of one language.
#[derive(Debug)]
pub struct LanguageShare {
    pub language: String,
    pub share: Double,
}

/// The average shares of the early and late segments.
#[derive(Debug)]
pub struct SegmentShares {
    /// Shares of the early segment.
    pub early: Vec<LanguageShare>,
    pub rust_before: Double,
    pub rust_after: Double,
    /// The share that `rust_after` must exceed to count as a rise:
    /// [`MIN_RUST_RISE`] above `rust_before`.
    pub rise_floor: Double,
    /// `rust_after` less `rust_before`.
    pub rise: Double,
}

/// Some entry is of this language.
pub open spec fn is_listed(entries: Seq<LanguageShare>, language: Seq<char>) -> bool {
    exists|k: int| 0 <= k < entries.len() && (#[trigger] entries[k]).language@ == language
}

/// The entries hold the average share of each language of some compositions, in
/// any order.
pub open spec fn are_average_shares(
    nets: Seq<Map<Seq<char>, int>>,
    entries: Seq<LanguageShare>,
) -> bool {
    &&& forall|k: int|
        0 <= k < entries.len() ==> {
            &&& nets.last().dom().contains((#[trigger] entries[k]).language@)
            &&& entries[k].share == average_share(nets, entries[k].language@)
        }
    &&& forall|i: int, j: int|
        0 <= i < j < entries.len() ==> (#[trigger] entries[i]).language@ != (
        #[trigger] entries[j]).language@
    &&& forall|language: Seq<char>|
        nets.last().dom().contains(language) ==> #[trigger] is_listed(entries, language)
}

/// The shares are those of the segments of some compositions.
pub open spec fn are_segment_shares(
    nets: Seq<Map<Seq<char>, int>>,
    shares: SegmentShares,
) -> bool {
    let size = segment_size(nets.len() as int);
    let early = nets.subrange(0, size);
    let late = nets.subrange(nets.len() - size, nets.len() as int);
    &&& are_average_shares(early, shares.early@)
    &&& shares.rust_before == average_share(early, "Rust"@)
    &&& shares.rust_after == average_share(late, "Rust"@)
    &&& shares.rise_floor == double::sum(shares.rust_before, Double { bits: MIN_RUST_RISE })
    &&& shares.rise == double::difference(shares.rust_after, shares.rust_before)
}

fn early_shares(samples: &Vec<CompositionSample>, to: usize) -> (r: Vec<LanguageShare>)
    requires
        0 < to <= samples@.len(),
        forall|k: int| 0 <= k < samples@.len() ==> (#[trigger] samples@[k]).net.well_formed(),
    ensures
        are_average_shares(nets_of(samples@).subrange(0, to as int), r@),
{
    let ghost nets = nets_of(samples@).subrange(0, to as int);
    let listed = &samples[to - 1].net;
    assert(listed.well_formed());
    assert(nets.last() == listed@);
    let mut out: Vec<LanguageShare> = Vec::new();
    let mut i: usize = 0;
    while i < listed.entries.len()
        invariant
            i <= listed.entries@.len(),
            0 < to <= samples@.len(),
            forall|k: int| 0 <= k < samples@.len() ==> (#[trigger] samples@[k]).net.well_formed(),
            nets == nets_of(samples@).subrange(0, to as int),
            out@.len() == i,
            forall|k: int|
                0 <= k < i ==> {
                    &&& (#[trigger] out@[k]).language@ == listed.entries@[k].language@
                    &&& out@[k].share == average_share(nets, out@[k].language@)
                },
        decreases listed.entries@.len() - i,
    {
        let language = listed.entries[i].language.as_str();
        let share = average_of(samples, 0, to, language);
        out.push(LanguageShare { language: language.to_owned(), share });
        i += 1;
    }
    assert forall|k: int| 0 <= k < out@.len() implies nets.last().dom().contains(
        (#[trigger] out@[k]).language@,
    ) by {
        assert(has_entry(listed.entries@, out@[k].language@, k));
    }
    assert forall|a: int, b: int| 0 <= a < b < out@.len() implies (#[trigger] out@[a]).language@ != (
    #[trigger] out@[b]).language@ by {
        assert(listed.entries@[a].language@ != listed.entries@[b].language@);
    }
    assert forall|language: Seq<char>| nets.last().dom().contains(language) implies #[trigger] is_listed(
        out@,
        language,
    ) by {
        let k = choose|k: int| has_entry(listed.entries@, language, k);
        assert(out@[k].language@ == language);
    }
    out
}

/// The shares of the segments of some samples.
pub fn segment_shares(samples: &Vec<CompositionSample>) -> (r: SegmentShares)
    requires
        samples@.len() > 0,
        forall|k: int| 0 <= k < samples@.len() ==> (#[trigger] samples@[k]).net.well_formed(),
    ensures
        are_segment_shares(nets_of(samples@), r),
{
    let (early, late) = segments(samples.len());
    let rust_before = average_of(samples, early.0, early.1, "Rust");
    let rust_after = average_of(samples, late.0, late.1, "Rust");
    SegmentShares {
        early: early_shares(samples, early.1),
        rust_before,
        rust_after,
        rise_floor: double::plus(rust_before, Double { bits: MIN_RUST_RISE }),
        rise: double::minus(rust_after, rust_before),
    }
}

/// Rust rose between the segments.
pub open spec fn rises(shares: SegmentShares) -> bool {
    shares.rust_after.above(shares.rise_floor)
}

/// Early history holds little enough Rust to count as a migration.
pub open spec fn little_rust_before(shares: SegmentShares) -> bool {
    Double { bits: MAX_RUST_BEFORE_FOR_MIGRATION }.above(shares.rust_before)
}

/// A language of a substantial early share, other than Rust.
pub open spec fn is_contender(entry: LanguageShare) -> bool {
    !commits::is_rust(entry.language@) && entry.share.at_least(Double { bits: MIN_DOMINANT_SHARE })
}

/// Entry `i` has the largest share of the contenders, the last one of equals.
pub open spec fn is_dominant(entries: Seq<LanguageShare>, i: int) -> bool {
    &&& 0 <= i < entries.len()
    &&& is_contender(entries[i])
    &&& forall|j: int|
        0 <= j < entries.len() && is_contender(#[trigger] entries[j]) ==> {
            &&& !entries[j].share.above(entries[i].share)
            &&& j > i ==> !entries[j].share.at_least(entries[i].share)
        }
}

/// The dominant language, if it is a real application language.
pub open spec fn dominant_language(entries: Seq<LanguageShare>) -> Option<Seq<char>> {
    if exists|i: int| is_dominant(entries, i) && !commits::is_noise(entries[i].language@) {
        let i = choose|i: int| is_dominant(entries, i) && !commits::is_noise(entries[i].language@);
        Some(entries[i].language@)
    } else {
        None
    }
}

/// The language that Rust displaced.
pub open spec fn displaced_by_rust(shares: SegmentShares) -> Option<Seq<char>> {
    if rises(shares) && shares.rise.at_least(Double { bits: MIN_NAMED_MAGNITUDE })
        && little_rust_before(shares) {
        dominant_language(shares.early@)
    } else {
        None
    }
}

/// A strong cross-language shift.
pub open spec fn is_strong(shares: SegmentShares, late_net_lines: int) -> bool {
    &&& rises(shares)
    &&& shares.rise.at_least(Double { bits: MIN_TRANSITION_MAGNITUDE })
    &&& little_rust_before(shares)
    &&& shares.rust_after.at_least(Double { bits: MIN_RUST_AFTER_FOR_STRONG })
    &&& displaced_by_rust(shares) is Some
    &&& late_net_lines >= MIN_NET_LINES
}

/// What the segments show.
#[derive(Debug)]
pub struct Verdict {
    pub rising: bool,
    pub from_language: Option<String>,
    pub strong: bool,
}

pub fn dominant_non_rust(entries: &Vec<LanguageShare>) -> (r: Option<usize>)
    ensures
        match r {
            Some(i) => is_dominant(entries@, i as int),
            None => forall|i: int| !is_dominant(entries@, i),
        },
{
    let least = Double { bits: MIN_DOMINANT_SHARE };
    let mut best: Option<usize> = None;
    let mut i: usize = 0;
    while i < entries.len()
        invariant
            i <= entries@.len(),
            least == (Double { bits: MIN_DOMINANT_SHARE }),
            match best {
                Some(b) => {
                    &&& b < i
                    &&& is_contender(entries@[b as int])
                    &&& forall|j: int|
                        0 <= j < i && is_contender(#[trigger] entries@[j]) ==> {
                            &&& !entries@[j].share.above(entries@[b as int].share)
                            &&& j > b ==> !entries@[j].share.at_least(entries@[b as int].share)
                        }
                },
                None => forall|j: int| 0 <= j < i ==> !is_contender(#[trigger] entries@[j]),
            },
        decreases entries@.len() - i,
    {
        let entry = &entries[i];
        if !commits::names_rust(entry.language.as_str()) && entry.share.is_at_least(least) {
            match best {
                Some(b) => {
                    if entry.share.is_at_least(entries[b].share) {
                        best = Some(i);
                    }
                },
                None => {
                    best = Some(i);
                },
            }
        }
        i += 1;
    }
    best
}

proof fn lemma_dominant_unique(entries: Seq<LanguageShare>, i: int)
    requires
        is_dominant(entries, i),
    ensures
        forall|j: int| is_dominant(entries, j) ==> i == j,
{
    assert forall|j: int| is_dominant(entries, j) implies i == j by {
        assert(is_contender(entries[i]) && is_contender(entries[j]));
        assert(!entries[i].share.above(entries[j].share));
        assert(!entries[j].share.above(entries[i].share));
    }
}

fn find_displaced(shares: &SegmentShares) -> (r: Option<String>)
    ensures
        model::opt_view(r) == dominant_language(shares.early@),
{
    match dominant_non_rust(&shares.early) {
        Some(i) => {
            proof {
                lemma_dominant_unique(shares.early@, i as int);
            }
            if commits::is_real_application_language(shares.early[i].language.as_str()) {
                Some(shares.early[i].language.clone())
            } else {
                None
            }
        },
        None => None,
    }
}

/// What the segments and the net lines at the end of history show.
pub fn transition_verdict(shares: &SegmentShares, late_net_lines: u128) -> (r: Verdict)
    ensures
        r.rising == rises(*shares),
        model::opt_view(r.from_language) == displaced_by_rust(*shares),
        r.strong == is_strong(*shares, late_net_lines as int),
{
    let rising = shares.rust_after.is_above(shares.rise_floor);
    let little_before = (Double { bits: MAX_RUST_BEFORE_FOR_MIGRATION }).is_above(
        shares.rust_before,
    );
    let from_language = if rising && shares.rise.is_at_least(Double { bits: MIN_NAMED_MAGNITUDE })
        && little_before {
        find_displaced(shares)
    } else {
        None
    };
    let strong = rising && shares.rise.is_at_least(Double { bits: MIN_TRANSITION_MAGNITUDE })
        && little_before && shares.rust_after.is_at_least(
        Double { bits: MIN_RUST_AFTER_FOR_STRONG },
    ) && from_language.is_some() && late_net_lines >= MIN_NET_LINES;
    Verdict { rising, from_language, strong }
}

/// A count as 32 bits; higher bits are lost.
pub open spec fn low_32(n: int) -> u32 {
    (n % 0x1_0000_0000) as u32
}

pub fn count_u32(n: usize) -> (r: u32)
    ensures
        r == low_32(n as int),
{
    (n as u64 % 0x1_0000_0000) as u32
}

/// The analysis of a history with samples: the verdict on its shares, the
/// enrichment of the window, and the shares rounded to tenths.
pub fn history_from_parts(
    verdict: Verdict,
    shares: &SegmentShares,
    enrichment: CommitEnrichment,
    commits: usize,
) -> (r: HistoryAnalysis)
    ensures
        enrich::same_enrichment(r.enrichment, enrichment),
        r.from_language == verdict.from_language,
        r.rust_pct_before == Some(double::rounded_to(shares.rust_before, double::TEN)),
        r.rust_pct_after == Some(double::rounded_to(shares.rust_after, double::TEN)),
        r.transition_magnitude == if verdict.rising {
            Some(double::rounded_to(shares.rise, double::TEN))
        } else {
            None
        },
        r.total_commits == low_32(commits as int),
        r.strong_transition == verdict.strong,
{
    HistoryAnalysis {
        enrichment,
        from_language: verdict.from_language,
        rust_pct_before: Some(double::round1(shares.rust_before)),
        rust_pct_after: Some(double::round1(shares.rust_after)),
        transition_magnitude: if verdict.rising {
            Some(double::round1(shares.rise))
        } else {
            None
        },
        total_commits: count_u32(commits),
        strong_transition: verdict.strong,
    }
}

// --- Analysis ----------------------------------------------------------------

/// The transition window among some commits.
pub open spec fn window_in<'a>(commits: Seq<CommitRecord>, points: Seq<SharePoint>) -> Seq<
    &'a CommitRecord,
> {
    let indices = window_of(git_history::commit_views(commits), points);
    Seq::new(indices.len(), |i: int| &commits[indices[i]])
}

/// The net lines at the end of history; none where a count leaves the range of
/// `i64`.
pub open spec fn final_lines(commits: Seq<CommitRecord>) -> Option<int> {
    match composition(git_history::commit_views(commits), commits.len() as int) {
        Some(net) => Some(total_lines(net)),
        None => None,
    }
}

/// The lines of every language stay in the range of `i64`, and those of the
/// transition window fit in 64 bits.
pub open spec fn is_countable(commits: Seq<CommitRecord>, points: Seq<SharePoint>) -> bool {
    commits.len() == 0 || (final_lines(commits) is Some && enrich::window_churn(
        window_in(commits, points),
    ) <= u64::MAX)
}

/// The compositions at the sampled commits.
pub open spec fn sampled_nets(commits: Seq<CommitRecord>, sample_points: int) -> Seq<
    Map<Seq<char>, int>,
> {
    let indices = sample_indices(commits.len() as int, sample_points);
    Seq::new(
        indices.len(),
        |k: int| composition(git_history::commit_views(commits), indices[k] + 1)->0,
    )
}

/// The points of a history.
pub open spec fn points_of(commits: Seq<CommitRecord>, sample_points: int) -> Seq<SharePoint> {
    points_at(
        sample_indices(commits.len() as int, sample_points),
        sampled_nets(commits, sample_points),
    )
}

/// `h` is what these shares show of some commits.
pub open spec fn shows(
    commits: Seq<CommitRecord>,
    shares: SegmentShares,
    h: HistoryAnalysis,
) -> bool {
    &&& model::opt_view(h.from_language) == displaced_by_rust(shares)
    &&& h.rust_pct_before == Some(double::rounded_to(shares.rust_before, double::TEN))
    &&& h.rust_pct_after == Some(double::rounded_to(shares.rust_after, double::TEN))
    &&& h.transition_magnitude == if rises(shares) {
        Some(double::rounded_to(shares.rise, double::TEN))
    } else {
        None
    }
    &&& final_lines(commits) matches Some(lines) && h.strong_transition == is_strong(shares, lines)
}

/// `h` is the analysis of some commits.
pub open spec fn is_analysis(
    commits: Seq<CommitRecord>,
    sample_points: int,
    h: HistoryAnalysis,
) -> bool {
    if commits.len() == 0 {
        is_blank_history(h)
    } else {
        &&& enrich::is_window_enrichment(
            window_in(commits, points_of(commits, sample_points)),
            h.enrichment,
        )
        &&& h.total_commits == low_32(commits.len() as int)
        &&& exists|shares: SegmentShares|
            are_segment_shares(sampled_nets(commits, sample_points), shares) && #[trigger] shows(
                commits,
                shares,
                h,
            )
    }
}

/// The analysis of commits, oldest first, from at most `sample_points` samples.
/// None where the lines cannot be counted.
pub fn analyze_commits_with_sample_points(commits: &[CommitRecord], sample_points: usize) -> (r:
    Option<HistoryAnalysis>)
    ensures
        match r {
            Some(h) => is_analysis(commits@, sample_points as int, h) && is_countable(
                commits@,
                points_of(commits@, sample_points as int),
            ),
            None => !is_countable(commits@, points_of(commits@, sample_points as int)),
        },
{
    let n: usize = commits.len();
    if n == 0 {
        return Some(HistoryAnalysis::default());
    }
    let samples = match sample_composition(commits, sample_points) {
        Some(samples) => samples,
        None => return None,
    };
    let ghost indices = sample_indices(n as int, sample_points as int);
    assert(forall|k: int| 0 <= k < samples@.len() ==> (#[trigger] samples@[k]).net.well_formed());
    let points = share_points(&samples);
    proof {
        samples_run_from_first_to_last(n as int, sample_points as int);
        points_follow_the_samples(commits@, sample_points as int);
        assert(Seq::new(samples@.len(), |k: int| samples@[k].idx as int) =~= indices);
        assert(nets_of(samples@) =~= sampled_nets(commits@, sample_points as int));
    }
    let shares = segment_shares(&samples);
    let late_net_lines: u128 = net_total(&samples[samples.len() - 1].net);
    let verdict = transition_verdict(&shares, late_net_lines);
    let window = transition_window_commits(commits, &points);
    assert(window@ =~= window_in(commits@, points@));
    let enrichment = match enrich::enrichment_from_window(&window) {
        Some(enrichment) => enrichment,
        None => return None,
    };
    let h = history_from_parts(verdict, &shares, enrichment, n);
    assert(shows(commits@, shares, h));
    Some(h)
}

// --- Laws --------------------------------------------------------------------

/// No language ever has a negative count of net lines.
pub proof fn net_lines_are_never_negative(commits: Seq<Commit>, n: int, language: Seq<char>)
    requires
        composition(commits, n) is Some,
        composition(commits, n)->0.dom().contains(language),
    ensures
        composition(commits, n)->0[language] >= 0,
    decreases n,
{
    if n > 0 {
        let before = composition(commits, n - 1)->0;
        if before.dom().contains(language) {
            net_lines_are_never_negative(commits, n - 1, language);
        }
        lemma_changes_nonnegative(before, commits[n - 1].files, language);
    }
}

proof fn lemma_changes_nonnegative(
    net: Map<Seq<char>, int>,
    changes: Seq<Change>,
    language: Seq<char>,
)
    requires
        net.dom().contains(language) ==> net[language] >= 0,
        after_changes(net, changes) is Some,
    ensures
        after_changes(net, changes)->0.dom().contains(language) ==> after_changes(
            net,
            changes,
        )->0[language] >= 0,
    decreases changes.len(),
{
    if changes.len() > 0 {
        lemma_changes_nonnegative(net, changes.drop_last(), language);
    }
}

/// The samples of a history run in order from the first commit to the last, and
/// there are no more of them than the maximum, or than a hundred where that is
/// lower.
pub proof fn samples_run_from_first_to_last(n: int, max_points: int)
    requires
        n > 0,
        max_points >= 0,
    ensures
        ({
            let indices = sample_indices(n, max_points);
            &&& 0 < indices.len() <= sample_cap(max_points)
            &&& indices[0] == 0
            &&& indices.last() == n - 1
            &&& forall|i: int, j: int|
                0 <= i < j < indices.len() ==> (#[trigger] indices[i]) < (#[trigger] indices[j])
            &&& forall|i: int| 0 <= i < indices.len() ==> 0 <= #[trigger] indices[i] < n
        }),
{
    lemma_samples_are_capped(n, max_points);
    lemma_sampled_in_order(n, sample_step(n, max_points), n);
}

/// The points of a history stand at its samples: in order, from the first commit
/// to the last.
pub proof fn points_follow_the_samples(commits: Seq<CommitRecord>, sample_points: int)
    requires
        0 < commits.len() <= usize::MAX,
        sample_points >= 0,
    ensures
        ({
            let points = points_of(commits, sample_points);
            &&& points_in_order(points, commits.len() as int)
            &&& 0 < points.len() <= sample_cap(sample_points)
            &&& points[0].idx == 0
            &&& points.last().idx == commits.len() - 1
        }),
{
    let n = commits.len() as int;
    samples_run_from_first_to_last(n, sample_points);
    let indices = sample_indices(n, sample_points);
    let points = points_of(commits, sample_points);
    assert forall|i: int, j: int| 0 <= i < j < points.len() implies (#[trigger] points[i]).idx < (
    #[trigger] points[j]).idx by {
        assert(0 <= indices[i] < indices[j] < n);
    }
    assert forall|i: int| 0 <= i < points.len() implies (#[trigger] points[i]).idx < n by {
        assert(0 <= indices[i] < n);
    }
    assert(points.last().idx == indices.last());
}

proof fn lemma_sampled_in_order(n: int, step: int, upto: int)
    requires
        0 <= upto <= n,
        step >= 1,
    ensures
        ({
            let indices = sampled(n, step, upto);
            &&& upto > 0 ==> indices.len() > 0 && indices[0] == 0
            &&& upto > 0 && is_sampled(upto - 1, n, step) ==> indices.last() == upto - 1
            &&& forall|i: int, j: int|
                0 <= i < j < indices.len() ==> (#[trigger] indices[i]) < (#[trigger] indices[j])
            &&& forall|i: int| 0 <= i < indices.len() ==> 0 <= #[trigger] indices[i] < upto
        }),
    decreases upto,
{
    if upto > 0 {
        lemma_sampled_in_order(n, step, upto - 1);
        if upto == 1 {
            assert(0int % step == 0) by (nonlinear_arith)
                requires
                    step >= 1,
            ;
            assert(sampled(n, step, 0) =~= Seq::empty());
            assert(sampled(n, step, 1) =~= seq![0int]);
        }
    }
}

/// Rounding to tenths leaves the thresholds of a strong transition as they are.
proof fn lemma_thresholds_are_round()
    ensures
        double::rounded_to(Double { bits: MIN_TRANSITION_MAGNITUDE }, double::TEN) == (Double {
            bits: MIN_TRANSITION_MAGNITUDE,
        }),
        double::rounded_to(Double { bits: MAX_RUST_BEFORE_FOR_MIGRATION }, double::TEN) == (Double {
            bits: MAX_RUST_BEFORE_FOR_MIGRATION,
        }),
        double::rounded_to(Double { bits: MIN_RUST_AFTER_FOR_STRONG }, double::TEN) == (Double {
            bits: MIN_RUST_AFTER_FOR_STRONG,
        }),
{
    vstd::arithmetic::power2::lemma2_to64_rest();
    double::lemma_scales();
    double::lemma_constant(MIN_TRANSITION_MAGNITUDE, 0x19_0000_0000_0000, 1026, 25, 48);
    double::lemma_constant(MAX_RUST_BEFORE_FOR_MIGRATION, 0x11_8000_0000_0000, 1027, 35, 47);
    double::lemma_constant(MIN_RUST_AFTER_FOR_STRONG, 0x14_0000_0000_0000, 1027, 40, 47);
    double::lemma_wholes_are_round(25, 10);
    double::lemma_wholes_are_round(35, 10);
    double::lemma_wholes_are_round(40, 10);
}

/// A strong transition names the real language that it left, and still counts
/// as strong when it is read back from what is stored of it: rounding never loses
/// it.
pub proof fn strong_transitions_stay_strong(
    commits: Seq<CommitRecord>,
    sample_points: int,
    h: HistoryAnalysis,
)
    requires
        is_analysis(commits, sample_points, h),
        h.strong_transition,
    ensures
        h.from_language matches Some(language) && !commits::is_noise(language@)
            && !commits::is_rust(language@),
        stored_is_strong(
            h.transition_magnitude,
            h.rust_pct_before,
            h.rust_pct_after,
            h.from_language is Some,
        ),
{
    let shares = choose|shares: SegmentShares|
        are_segment_shares(sampled_nets(commits, sample_points), shares) && #[trigger] shows(
            commits,
            shares,
            h,
        );
    lemma_thresholds_are_round();
    double::rounding_keeps_order(
        Double { bits: MIN_TRANSITION_MAGNITUDE },
        shares.rise,
        double::TEN,
    );
    double::rounding_keeps_order(
        shares.rust_before,
        Double { bits: MAX_RUST_BEFORE_FOR_MIGRATION },
        double::TEN,
    );
    double::rounding_keeps_order(
        Double { bits: MIN_RUST_AFTER_FOR_STRONG },
        shares.rust_after,
        double::TEN,
    );
}

/// Where any of the stored values is missing, no transition is strong.
pub proof fn missing_values_show_no_transition(
    magnitude: Option<Double>,
    rust_before: Option<Double>,
    rust_after: Option<Double>,
    from_language: bool,
)
    requires
        magnitude is None || rust_before is None || rust_after is None || !from_language,
    ensures
        !stored_is_strong(magnitude, rust_before, rust_after, from_language),
{
}

/// A project that was mostly Rust from the start, or where Rust does not rise,
/// is no migration: nothing was displaced and no transition is strong.
pub proof fn born_in_rust_is_no_transition(shares: SegmentShares, late_net_lines: int)
    requires
        !rises(shares) || shares.rust_before.at_least(
            Double { bits: MAX_RUST_BEFORE_FOR_MIGRATION },
        ),
    ensures
        displaced_by_rust(shares) is None,
        !is_strong(shares, late_net_lines),
{
}

} // verus!
