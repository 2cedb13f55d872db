//! Rewrite-window metrics and the experimental AI-assist heuristic.

use crate::detect::git_history::{Change, CommitRecord};
use crate::detect::transitions;
use crate::double;
use crate::double::Double;
use crate::sums;
use crate::text;
use crate::text_model as model;
use vstd::prelude::*;

verus! {

/// Metrics derived from commit history during a rewrite window.
#[derive(Debug)]
pub struct CommitEnrichment {
    pub lines_added: Option<u64>,
    pub lines_removed: Option<u64>,
    pub rewrite_velocity: Option<Double>,
    /// Experimental 0.0–1.0 heuristic for signs of AI-assisted translation.
    pub ai_assist_score: Option<Double>,
    pub ai_agents: Vec<String>,
    pub rewrite_duration_days: Option<u32>,
    pub commit_count: Option<u32>,
}

/// Two enrichments hold the same data.
pub open spec fn same_enrichment(a: CommitEnrichment, b: CommitEnrichment) -> bool {
    &&& a.lines_added == b.lines_added
    &&& a.lines_removed == b.lines_removed
    &&& a.rewrite_velocity == b.rewrite_velocity
    &&& a.ai_assist_score == b.ai_assist_score
    &&& a.ai_agents@ == b.ai_agents@
    &&& a.rewrite_duration_days == b.rewrite_duration_days
    &&& a.commit_count == b.commit_count
}

/// No metric is known.
pub open spec fn is_blank(e: CommitEnrichment) -> bool {
    &&& e.lines_added is None
    &&& e.lines_removed is None
    &&& e.rewrite_velocity is None
    &&& e.ai_assist_score is None
    &&& e.ai_agents@.len() == 0
    &&& e.rewrite_duration_days is None
    &&& e.commit_count is None
}

impl Clone for CommitEnrichment {
    fn clone(&self) -> (r: Self)
        ensures
            same_enrichment(r, *self),
    {
        CommitEnrichment {
            lines_added: self.lines_added,
            lines_removed: self.lines_removed,
            rewrite_velocity: self.rewrite_velocity,
            ai_assist_score: self.ai_assist_score,
            ai_agents: self.ai_agents.clone(),
            rewrite_duration_days: self.rewrite_duration_days,
            commit_count: self.commit_count,
        }
    }
}

impl Default for CommitEnrichment {
    fn default() -> (r: Self)
        ensures
            is_blank(r),
    {
        CommitEnrichment {
            lines_added: None,
            lines_removed: None,
            rewrite_velocity: None,
            ai_assist_score: None,
            ai_agents: Vec::new(),
            rewrite_duration_days: None,
            commit_count: None,
        }
    }
}

pub const AI_MSG_PATTERNS: [&'static str; 7] = [
    "refactor",
    "translate",
    "port module",
    "porting",
    "convert to rust",
    "migrate",
    "translation",
];

// --- Line totals -------------------------------------------------------------

/// The lines that file changes add, or those that they remove.
pub open spec fn lines_in(changes: Seq<Change>, removed: bool) -> nat
    decreases changes.len(),
{
    if changes.len() == 0 {
        0
    } else {
        let last = changes.last();
        lines_in(changes.drop_last(), removed) + if removed {
            last.removed as nat
        } else {
            last.added as nat
        }
    }
}

/// The lines that the first `m` commits of a window add, or remove.
pub open spec fn window_lines(window: Seq<&CommitRecord>, removed: bool, m: int) -> nat
    decreases m,
{
    if m <= 0 {
        0
    } else {
        window_lines(window, removed, m - 1) + lines_in(window[m - 1]@.files, removed)
    }
}

/// All lines that a window adds and removes.
pub open spec fn window_churn(window: Seq<&CommitRecord>) -> nat {
    window_lines(window, false, window.len() as int) + window_lines(
        window,
        true,
        window.len() as int,
    )
}

fn commit_lines(c: &CommitRecord, removed: bool) -> (r: u128)
    ensures
        r == lines_in(c@.files, removed),
        r <= usize::MAX * u64::MAX,
{
    let n: usize = c.files.len();
    let ghost changes = c@.files;
    let mut total: u128 = 0;
    let mut i: usize = 0;
    assert(lines_in(changes.take(0), removed) == 0);
    while i < n
        invariant
            i <= n,
            n == c.files@.len(),
            changes == c@.files,
            total == lines_in(changes.take(i as int), removed),
            total <= i * u64::MAX,
        decreases n - i,
    {
        assert(changes.take(i + 1).drop_last() =~= changes.take(i as int));
        assert(changes.take(i + 1).last() == c.files@[i as int]@);
        proof {
            sums::lemma_room(i, total as int);
        }
        let f = &c.files[i];
        total = total + if removed {
            f.removed as u128
        } else {
            f.added as u128
        };
        i += 1;
    }
    assert(changes.take(n as int) =~= changes);
    proof {
        sums::lemma_room(n, total as int);
    }
    total
}

/// The lines that a commit adds.
pub fn commit_added(c: &CommitRecord) -> (r: u128)
    ensures
        r == lines_in(c@.files, false),
{
    commit_lines(c, false)
}

proof fn lemma_window_lines_grow(window: Seq<&CommitRecord>, removed: bool, m: int, n: int)
    requires
        m <= n,
    ensures
        window_lines(window, removed, m) <= window_lines(window, removed, n),
    decreases n - m,
{
    if m < n {
        lemma_window_lines_grow(window, removed, m, n - 1);
    }
}

/// The lines that a window adds or removes; none where they do not fit.
fn sum_window(window: &Vec<&CommitRecord>, removed: bool) -> (r: Option<u64>)
    ensures
        match r {
            Some(total) => total == window_lines(window@, removed, window@.len() as int),
            None => window_lines(window@, removed, window@.len() as int) > u64::MAX,
        },
{
    let n: usize = window.len();
    let mut total: u64 = 0;
    let mut i: usize = 0;
    while i < n
        invariant
            i <= n,
            n == window@.len(),
            total == window_lines(window@, removed, i as int),
        decreases n - i,
    {
        let lines: u128 = commit_lines(window[i], removed);
        proof {
            sums::lemma_room(0, 0);
        }
        let sum: u128 = total as u128 + lines;
        if sum > u64::MAX as u128 {
            proof {
                lemma_window_lines_grow(window@, removed, i + 1, n as int);
            }
            return None;
        }
        total = sum as u64;
        i += 1;
    }
    Some(total)
}

/// Totals of a rewrite window.
#[derive(Debug, Clone, Copy, PartialEq, Eq, Structural)]
pub struct WindowTotals {
    pub lines_added: u64,
    pub lines_removed: u64,
    /// Lines added and removed together.
    pub churn: u64,
    pub commit_count: u32,
    /// Timestamp of the earliest commit; zero without commits.
    pub min_ts: i64,
    /// Timestamp of the latest commit; zero without commits.
    pub max_ts: i64,
}

/// `ts` is the earliest timestamp of a window.
pub open spec fn is_first_time(window: Seq<&CommitRecord>, ts: i64) -> bool {
    if window.len() == 0 {
        ts == 0
    } else {
        &&& exists|i: int| 0 <= i < window.len() && (#[trigger] window[i]).timestamp == ts
        &&& forall|i: int| 0 <= i < window.len() ==> ts <= (#[trigger] window[i]).timestamp
    }
}

/// `ts` is the latest timestamp of a window.
pub open spec fn is_last_time(window: Seq<&CommitRecord>, ts: i64) -> bool {
    if window.len() == 0 {
        ts == 0
    } else {
        &&& exists|i: int| 0 <= i < window.len() && (#[trigger] window[i]).timestamp == ts
        &&& forall|i: int| 0 <= i < window.len() ==> ts >= (#[trigger] window[i]).timestamp
    }
}

fn time_range(window: &Vec<&CommitRecord>) -> (r: (i64, i64))
    ensures
        is_first_time(window@, r.0),
        is_last_time(window@, r.1),
{
    if window.len() == 0 {
        return (0, 0);
    }
    let mut first: i64 = window[0].timestamp;
    let mut last: i64 = window[0].timestamp;
    let mut i: usize = 1;
    while i < window.len()
        invariant
            1 <= i <= window@.len(),
            exists|j: int| 0 <= j < window@.len() && (#[trigger] window@[j]).timestamp == first,
            exists|j: int| 0 <= j < window@.len() && (#[trigger] window@[j]).timestamp == last,
            forall|j: int| 0 <= j < i ==> first <= (#[trigger] window@[j]).timestamp <= last,
        decreases window@.len() - i,
    {
        let ts: i64 = window[i].timestamp;
        if ts < first {
            first = ts;
        }
        if ts > last {
            last = ts;
        }
        i += 1;
    }
    (first, last)
}

/// The totals of a window; none where its lines do not fit in 64 bits.
pub fn window_totals(window: &Vec<&CommitRecord>) -> (r: Option<WindowTotals>)
    ensures
        match r {
            Some(totals) => {
                &&& totals.lines_added == window_lines(window@, false, window@.len() as int)
                &&& totals.lines_removed == window_lines(window@, true, window@.len() as int)
                &&& totals.churn == window_churn(window@)
                &&& totals.commit_count == transitions::low_32(window@.len() as int)
                &&& is_first_time(window@, totals.min_ts)
                &&& is_last_time(window@, totals.max_ts)
            },
            None => window_churn(window@) > u64::MAX,
        },
{
    let lines_added: u64 = match sum_window(window, false) {
        Some(total) => total,
        None => return None,
    };
    let lines_removed: u64 = match sum_window(window, true) {
        Some(total) => total,
        None => return None,
    };
    let churn: u64 = match lines_added.checked_add(lines_removed) {
        Some(total) => total,
        None => return None,
    };
    let (min_ts, max_ts) = time_range(window);
    Some(
        WindowTotals {
            lines_added,
            lines_removed,
            churn,
            commit_count: transitions::count_u32(window.len()),
            min_ts,
            max_ts,
        },
    )
}

// --- Duration ----------------------------------------------------------------

/// The first second that chrono can represent: the start of the year -262143.
pub const FIRST_SECOND: i64 = -8334601228800;

/// The last second that chrono can represent: the end of the year 262142.
pub const LAST_SECOND: i64 = 8210266876799;

pub const SECONDS_PER_DAY: i64 = 86400;

/// A timestamp that chrono can represent.
pub open spec fn is_representable(ts: i64) -> bool {
    FIRST_SECOND <= ts <= LAST_SECOND
}

/// Whether `chrono::TimeZone::timestamp_opt` on `chrono::Utc` maps a number of
/// seconds to a time: it does from the start of the first year that a
/// `chrono::NaiveDate` can hold to the end of the last.
#[verifier::external_body]
fn timestamp_exists(ts: i64) -> (r: bool)
    ensures
        r == is_representable(ts),
{
    chrono::TimeZone::timestamp_opt(&chrono::Utc, ts, 0).single().is_some()
}

/// The whole days that `chrono::TimeDelta::num_days` gives for the difference of
/// two UTC times: the difference of the seconds by the seconds of a day, without
/// its fraction.
#[verifier::external_body]
fn elapsed_days(from: i64, to: i64) -> (r: i64)
    requires
        is_representable(from),
        is_representable(to),
    ensures
        to >= from ==> r == (to - from) / SECONDS_PER_DAY as int,
        to < from ==> r == -((from - to) / SECONDS_PER_DAY as int),
{
    let start = chrono::TimeZone::timestamp_opt(&chrono::Utc, from, 0).unwrap();
    let end = chrono::TimeZone::timestamp_opt(&chrono::Utc, to, 0).unwrap();
    (end - start).num_days()
}

/// The length of a window in days: whole days, at least one. A missing (zero) or
/// unrepresentable timestamp makes it one.
pub open spec fn days_of(min_ts: i64, max_ts: i64) -> int {
    if min_ts == 0 || max_ts == 0 || !is_representable(min_ts) || !is_representable(max_ts)
        || max_ts - min_ts < SECONDS_PER_DAY {
        1
    } else {
        (max_ts - min_ts) / SECONDS_PER_DAY as int
    }
}

pub fn duration_days(min_ts: i64, max_ts: i64) -> (r: u32)
    ensures
        r == days_of(min_ts, max_ts),
        r >= 1,
{
    if min_ts == 0 || max_ts == 0 {
        return 1;
    }
    if !timestamp_exists(min_ts) || !timestamp_exists(max_ts) {
        return 1;
    }
    let days: i64 = elapsed_days(min_ts, max_ts);
    if days < 1 {
        1
    } else {
        days as u32
    }
}

// --- AI-assist heuristic -----------------------------------------------------

/// A commit message in the wording of templated translation work.
pub open spec fn is_templated(c: CommitRecord) -> bool {
    model::any_phrase(model::lowercase(c.subject@), AI_MSG_PATTERNS@)
}

/// A commit that adds more than two thousand lines.
pub open spec fn is_big(c: CommitRecord) -> bool {
    lines_in(c@.files, false) > 2000
}

/// The templated messages among the first `m` commits.
pub open spec fn templated_count(window: Seq<&CommitRecord>, m: int) -> nat
    decreases m,
{
    if m <= 0 {
        0
    } else {
        templated_count(window, m - 1) + if is_templated(*window[m - 1]) {
            1nat
        } else {
            0
        }
    }
}

/// The big commits among the first `m`.
pub open spec fn big_count(window: Seq<&CommitRecord>, m: int) -> nat
    decreases m,
{
    if m <= 0 {
        0
    } else {
        big_count(window, m - 1) + if is_big(*window[m - 1]) {
            1nat
        } else {
            0
        }
    }
}

/// Two days.
pub const BURST_SECONDS: i128 = 172800;

/// A commit no earlier than a time and at most two days later.
pub open spec fn in_burst(c: CommitRecord, ts: i64) -> bool {
    ts <= c.timestamp <= ts + BURST_SECONDS
}

/// The commits among the first `m` within two days of a time.
pub open spec fn burst_count(window: Seq<&CommitRecord>, ts: i64, m: int) -> nat
    decreases m,
{
    if m <= 0 {
        0
    } else {
        burst_count(window, ts, m - 1) + if in_burst(*window[m - 1], ts) {
            1nat
        } else {
            0
        }
    }
}

/// Some commit begins two days with at least `k` commits.
pub open spec fn has_burst(window: Seq<&CommitRecord>, k: nat) -> bool {
    exists|i: int|
        0 <= i < window.len() && burst_count(
            window,
            (#[trigger] window[i]).timestamp,
            window.len() as int,
        ) >= k
}

/// The score for commits of more than five hundred lines on average: 0.30.
pub const LARGE_COMMITS: u64 = 0x3fd3_3333_3333_3333;

/// The score for commits of more than two hundred lines on average: 0.15.
pub const MEDIUM_COMMITS: u64 = 0x3fc3_3333_3333_3333;

/// Five hundred, and two hundred.
pub const LARGE_AVERAGE: u64 = 0x407f_4000_0000_0000;

pub const MEDIUM_AVERAGE: u64 = 0x4069_0000_0000_0000;

/// The weight of the share of commits with templated messages, and of the share of
/// big commits, and the most that each line of evidence counts: 0.25.
pub const COMMIT_SHARE_WEIGHT: u64 = 0x3fd0_0000_0000_0000;

/// The scores for bursts of at least ten, five and three commits: 0.25, 0.15 and
/// 0.08.
pub const LARGE_BURST: u64 = 0x3fd0_0000_0000_0000;

pub const MEDIUM_BURST: u64 = 0x3fc3_3333_3333_3333;

pub const SMALL_BURST: u64 = 0x3fb4_7ae1_47ae_147b;

/// The score for the average size of a commit.
pub open spec fn size_score(lines: int, commits: int) -> Double {
    let average = double::quotient(double::integer(lines), double::integer(commits));
    if average.above(Double { bits: LARGE_AVERAGE }) {
        Double { bits: LARGE_COMMITS }
    } else if average.above(Double { bits: MEDIUM_AVERAGE }) {
        Double { bits: MEDIUM_COMMITS }
    } else {
        Double { bits: 0 }
    }
}

/// The score for a share of the commits.
pub open spec fn share_score(some: int, commits: int) -> Double {
    double::capped(
        double::product(
            double::quotient(double::integer(some), double::integer(commits)),
            Double { bits: COMMIT_SHARE_WEIGHT },
        ),
        COMMIT_SHARE_WEIGHT,
    )
}

/// The score for the largest burst of commits.
pub open spec fn burst_of(window: Seq<&CommitRecord>) -> Double {
    if window.len() < 3 {
        Double { bits: 0 }
    } else if has_burst(window, 10) {
        Double { bits: LARGE_BURST }
    } else if has_burst(window, 5) {
        Double { bits: MEDIUM_BURST }
    } else if has_burst(window, 3) {
        Double { bits: SMALL_BURST }
    } else {
        Double { bits: 0 }
    }
}

/// The AI-assist score of a window with this many lines.
pub open spec fn ai_score(window: Seq<&CommitRecord>, lines: int) -> Double {
    let n = window.len() as int;
    if n == 0 {
        Double { bits: 0 }
    } else {
        let size = double::sum(Double { bits: 0 }, size_score(lines, n));
        let templated = double::sum(size, share_score(templated_count(window, n) as int, n));
        let big = if big_count(window, n) > 0 {
            double::sum(templated, share_score(big_count(window, n) as int, n))
        } else {
            templated
        };
        let burst = double::sum(big, double::capped(burst_of(window), COMMIT_SHARE_WEIGHT));
        double::rounded_to(double::clamped(burst), double::HUNDRED)
    }
}

fn count_templated(window: &Vec<&CommitRecord>) -> (r: usize)
    ensures
        r == templated_count(window@, window@.len() as int),
{
    let n: usize = window.len();
    let mut count: usize = 0;
    let mut i: usize = 0;
    while i < n
        invariant
            i <= n,
            n == window@.len(),
            count == templated_count(window@, i as int),
            count <= i,
        decreases n - i,
    {
        let subject = window[i].subject.as_str().to_lowercase();
        if text::any_phrase(subject.as_str(), &AI_MSG_PATTERNS) {
            count += 1;
        }
        i += 1;
    }
    count
}

fn count_big(window: &Vec<&CommitRecord>) -> (r: usize)
    ensures
        r == big_count(window@, window@.len() as int),
{
    let n: usize = window.len();
    let mut count: usize = 0;
    let mut i: usize = 0;
    while i < n
        invariant
            i <= n,
            n == window@.len(),
            count == big_count(window@, i as int),
            count <= i,
        decreases n - i,
    {
        if commit_added(window[i]) > 2000 {
            count += 1;
        }
        i += 1;
    }
    count
}

fn count_burst(window: &Vec<&CommitRecord>, ts: i64) -> (r: usize)
    ensures
        r == burst_count(window@, ts, window@.len() as int),
{
    let n: usize = window.len();
    let mut count: usize = 0;
    let mut i: usize = 0;
    while i < n
        invariant
            i <= n,
            n == window@.len(),
            count == burst_count(window@, ts, i as int),
            count <= i,
        decreases n - i,
    {
        let other: i64 = window[i].timestamp;
        if ts <= other && other as i128 - ts as i128 <= BURST_SECONDS {
            count += 1;
        }
        i += 1;
    }
    count
}

/// The score for the largest burst of commits.
pub fn burst_score(window: &Vec<&CommitRecord>) -> (r: Double)
    ensures
        r == burst_of(window@),
{
    if window.len() < 3 {
        return Double { bits: 0 };
    }
    let ghost n = window@.len() as int;
    let mut max_burst: usize = 1;
    let mut i: usize = 0;
    while i < window.len()
        invariant
            i <= window@.len(),
            n == window@.len(),
            max_burst == 1 || exists|j: int|
                0 <= j < n && burst_count(window@, (#[trigger] window@[j]).timestamp, n)
                    == max_burst,
            forall|j: int|
                0 <= j < i ==> burst_count(window@, (#[trigger] window@[j]).timestamp, n)
                    <= max_burst,
        decreases window@.len() - i,
    {
        let burst: usize = count_burst(window, window[i].timestamp);
        if burst > max_burst {
            max_burst = burst;
        }
        i += 1;
    }
    if max_burst >= 10 {
        Double { bits: LARGE_BURST }
    } else if max_burst >= 5 {
        Double { bits: MEDIUM_BURST }
    } else if max_burst >= 3 {
        Double { bits: SMALL_BURST }
    } else {
        Double { bits: 0 }
    }
}

fn score_of_share(some: usize, commits: usize) -> (r: Double)
    requires
        commits > 0,
    ensures
        r == share_score(some as int, commits as int),
{
    let share = double::over(
        double::from_integer(some as u128),
        double::from_integer(commits as u128),
    );
    let weighed = double::times(share, Double { bits: COMMIT_SHARE_WEIGHT });
    double::cap_at(weighed, COMMIT_SHARE_WEIGHT)
}

/// The AI-assist score of a window with these line totals.
pub fn compute_ai_assist_score(
    window: &Vec<&CommitRecord>,
    lines_added: u64,
    lines_removed: u64,
) -> (r: Double)
    ensures
        r == ai_score(window@, lines_added + lines_removed),
        double::is_fraction(r),
{
    proof {
        ai_scores_are_fractions(window@, lines_added + lines_removed);
    }
    let n: usize = window.len();
    if n == 0 {
        return Double { bits: 0 };
    }
    let lines: u128 = lines_added as u128 + lines_removed as u128;
    let average = double::over(double::from_integer(lines), double::from_integer(n as u128));
    let size = if average.is_above(Double { bits: LARGE_AVERAGE }) {
        Double { bits: LARGE_COMMITS }
    } else if average.is_above(Double { bits: MEDIUM_AVERAGE }) {
        Double { bits: MEDIUM_COMMITS }
    } else {
        Double { bits: 0 }
    };
    let mut score = double::plus(Double { bits: 0 }, size);
    score = double::plus(score, score_of_share(count_templated(window), n));
    let big: usize = count_big(window);
    if big > 0 {
        score = double::plus(score, score_of_share(big, n));
    }
    score = double::plus(score, double::cap_at(burst_score(window), COMMIT_SHARE_WEIGHT));
    double::round2(double::clamp(score))
}

/// The lines a day of a window, rounded to hundredths.
pub open spec fn velocity_of(churn: int, days: int) -> Double {
    double::rounded_to(
        double::quotient(double::integer(churn), double::integer(days)),
        double::HUNDRED,
    )
}

/// The enrichment of a window with these totals.
pub fn enrichment_from_totals(totals: &WindowTotals, ai_window: &Vec<&CommitRecord>) -> (r:
    CommitEnrichment)
    ensures
        r.lines_added == Some(totals.lines_added),
        r.lines_removed == Some(totals.lines_removed),
        r.rewrite_velocity == Some(
            velocity_of(totals.churn as int, days_of(totals.min_ts, totals.max_ts)),
        ),
        r.ai_assist_score == Some(
            ai_score(ai_window@, totals.lines_added + totals.lines_removed),
        ),
        r.ai_agents@.len() == 0,
        r.rewrite_duration_days matches Some(days) && days == days_of(
            totals.min_ts,
            totals.max_ts,
        ),
        r.commit_count == Some(totals.commit_count),
{
    let days: u32 = duration_days(totals.min_ts, totals.max_ts);
    let velocity = double::round2(
        double::over(
            double::from_integer(totals.churn as u128),
            double::from_integer(days as u128),
        ),
    );
    CommitEnrichment {
        lines_added: Some(totals.lines_added),
        lines_removed: Some(totals.lines_removed),
        rewrite_velocity: Some(velocity),
        ai_assist_score: Some(
            compute_ai_assist_score(ai_window, totals.lines_added, totals.lines_removed),
        ),
        ai_agents: Vec::new(),
        rewrite_duration_days: Some(days),
        commit_count: Some(totals.commit_count),
    }
}

/// `days` is the length of a window.
pub open spec fn is_length_of(window: Seq<&CommitRecord>, days: u32) -> bool {
    exists|first: i64, last: i64|
        #[trigger] is_first_time(window, first) && #[trigger] is_last_time(window, last) && days
            == days_of(first, last)
}

/// `e` is the enrichment of a window.
pub open spec fn is_window_enrichment(window: Seq<&CommitRecord>, e: CommitEnrichment) -> bool {
    if window.len() == 0 {
        is_blank(e)
    } else {
        &&& e.lines_added matches Some(n) && n == window_lines(window, false, window.len() as int)
        &&& e.lines_removed matches Some(n) && n == window_lines(window, true, window.len() as int)
        &&& e.rewrite_duration_days matches Some(days) && is_length_of(window, days)
            && e.rewrite_velocity == Some(velocity_of(window_churn(window) as int, days as int))
        &&& e.ai_assist_score == Some(ai_score(window, window_churn(window) as int))
        &&& e.ai_agents@.len() == 0
        &&& e.commit_count == Some(transitions::low_32(window.len() as int))
    }
}

/// The enrichment of a window; none where its lines do not fit in 64 bits.
pub fn enrichment_from_window(window: &Vec<&CommitRecord>) -> (r: Option<CommitEnrichment>)
    ensures
        match r {
            Some(e) => is_window_enrichment(window@, e) && window_churn(window@) <= u64::MAX,
            None => window_churn(window@) > u64::MAX,
        },
{
    if window.len() == 0 {
        return Some(CommitEnrichment::default());
    }
    match window_totals(window) {
        Some(totals) => Some(enrichment_from_totals(&totals, window)),
        None => None,
    }
}

/// The AI-assist score lies between zero and one.
pub proof fn ai_scores_are_fractions(window: Seq<&CommitRecord>, lines: int)
    ensures
        double::is_fraction(ai_score(window, lines)),
{
    let n = window.len() as int;
    if n > 0 {
        let size = double::sum(Double { bits: 0 }, size_score(lines, n));
        let templated = double::sum(size, share_score(templated_count(window, n) as int, n));
        let big = if big_count(window, n) > 0 {
            double::sum(templated, share_score(big_count(window, n) as int, n))
        } else {
            templated
        };
        let burst = double::sum(big, double::capped(burst_of(window), COMMIT_SHARE_WEIGHT));
        let (t, b) = (
            share_score(templated_count(window, n) as int, n),
            share_score(big_count(window, n) as int, n),
        );
        double::lemma_at_most_one(Double { bits: 0 });
        double::lemma_at_most_one(size_score(lines, n));
        double::lemma_at_most_one(t);
        double::lemma_at_most_one(b);
        double::lemma_at_most_one(double::capped(burst_of(window), COMMIT_SHARE_WEIGHT));
        double::sums_are_bounded(Double { bits: 0 }, size_score(lines, n), 1, 1);
        double::sums_are_bounded(size, t, 2, 1);
        double::sums_are_bounded(templated, b, 3, 1);
        if big_count(window, n) > 0 {
            double::sums_are_bounded(
                big,
                double::capped(burst_of(window), COMMIT_SHARE_WEIGHT),
                4,
                1,
            );
        } else {
            double::sums_are_bounded(
                big,
                double::capped(burst_of(window), COMMIT_SHARE_WEIGHT),
                3,
                1,
            );
        }
        double::rounded_fractions_are_fractions(double::clamped(burst));
    }
}

} // verus!
