//! Laws of the metrics of a rewrite window.

use crate::detect::enrich;
use crate::detect::enrich::CommitEnrichment;
use crate::detect::git_history::{Change, CommitRecord};
use crate::double;
use crate::double::Double;
use crate::laws::numbers;
use crate::rounding;
use crate::text_model as model;
use vstd::prelude::*;
use vstd::string::*;

verus! {

// --- Lines -------------------------------------------------------------------

/// One more change adds the lines that it adds, and removes those that it removes.
pub proof fn changes_add_their_lines(changes: Seq<Change>, change: Change)
    ensures
        enrich::lines_in(changes.push(change), false) == enrich::lines_in(changes, false)
            + change.added,
        enrich::lines_in(changes.push(change), true) == enrich::lines_in(changes, true)
            + change.removed,
        enrich::lines_in(Seq::empty(), false) == 0,
        enrich::lines_in(Seq::empty(), true) == 0,
{
    assert(changes.push(change).drop_last() =~= changes);
}

proof fn lemma_prefix(window: Seq<&CommitRecord>, more: Seq<&CommitRecord>, removed: bool, m: int)
    requires
        m <= window.len() <= more.len(),
        forall|i: int| 0 <= i < m ==> #[trigger] window[i] == more[i],
    ensures
        enrich::window_lines(window, removed, m) == enrich::window_lines(more, removed, m),
    decreases m,
{
    if m > 0 {
        lemma_prefix(window, more, removed, m - 1);
        assert(window[m - 1] == more[m - 1]);
    }
}

/// One more commit at the end of a window adds its lines, both of those that it
/// adds and of those that it removes.
pub proof fn commits_add_their_lines(window: Seq<&CommitRecord>, commit: &CommitRecord)
    ensures
        ({
            let n = window.len() as int;
            let more = window.push(commit);
            &&& enrich::window_lines(more, false, n + 1) == enrich::window_lines(window, false, n)
                + enrich::lines_in(commit@.files, false)
            &&& enrich::window_lines(more, true, n + 1) == enrich::window_lines(window, true, n)
                + enrich::lines_in(commit@.files, true)
            &&& enrich::window_churn(more) == enrich::window_churn(window) + enrich::lines_in(
                commit@.files,
                false,
            ) + enrich::lines_in(commit@.files, true)
            &&& enrich::window_churn(Seq::empty()) == 0
        }),
{
    let n = window.len() as int;
    let more = window.push(commit);
    lemma_prefix(window, more, false, n);
    lemma_prefix(window, more, true, n);
    assert(more[n] == commit);
}

/// The metrics of a window with one more commit: as many more lines as the commit
/// adds and removes, and one commit more.
pub proof fn metrics_grow_with_commits(
    window: Seq<&CommitRecord>,
    commit: &CommitRecord,
    before: CommitEnrichment,
    after: CommitEnrichment,
)
    requires
        0 < window.len() < u32::MAX,
        enrich::is_window_enrichment(window, before),
        enrich::is_window_enrichment(window.push(commit), after),
    ensures
        before.lines_added is Some && before.lines_removed is Some && before.commit_count is Some,
        after.lines_added matches Some(n) && n == before.lines_added->0 + enrich::lines_in(
            commit@.files,
            false,
        ),
        after.lines_removed matches Some(n) && n == before.lines_removed->0 + enrich::lines_in(
            commit@.files,
            true,
        ),
        after.commit_count matches Some(n) && n == before.commit_count->0 + 1,
{
    commits_add_their_lines(window, commit);
}

/// The velocity of a window counts the lines that are added and those that are
/// removed alike, over the days that it reports.
pub proof fn velocity_is_of_all_lines_in_all_days(
    window: Seq<&CommitRecord>,
    other: Seq<&CommitRecord>,
    a: CommitEnrichment,
    b: CommitEnrichment,
)
    requires
        window.len() > 0,
        other.len() > 0,
        enrich::is_window_enrichment(window, a),
        enrich::is_window_enrichment(other, b),
        a.rewrite_duration_days == b.rewrite_duration_days,
    ensures
        a.lines_added->0 + a.lines_removed->0 == b.lines_added->0 + b.lines_removed->0
            ==> a.rewrite_velocity == b.rewrite_velocity,
        a.lines_added->0 + a.lines_removed->0 <= b.lines_added->0 + b.lines_removed->0
            && a.rewrite_duration_days->0 > 0 && b.lines_added->0 + b.lines_removed->0
            <= u64::MAX ==> b.rewrite_velocity->0.at_least(a.rewrite_velocity->0),
{
    let (x, y) = (enrich::window_churn(window) as int, enrich::window_churn(other) as int);
    let days = a.rewrite_duration_days->0 as int;
    if x <= y && days > 0 && y <= u64::MAX {
        lemma_integers_keep_order(x, y);
        double::lemma_scales();
        double::lemma_integer_range(days);
        double::quotients_keep_order(
            double::integer(x),
            double::integer(y),
            double::integer(days),
        );
        double::rounding_keeps_order(
            double::quotient(double::integer(x), double::integer(days)),
            double::quotient(double::integer(y), double::integer(days)),
            double::HUNDRED,
        );
    }
}

proof fn lemma_integers_keep_order(x: int, y: int)
    requires
        0 <= x <= y <= u128::MAX,
    ensures
        double::integer(y).at_least(double::integer(x)),
{
    double::lemma_integer_range(x);
    double::lemma_integer_range(y);
    double::lemma_units_of_one();
    let one = rounding::unit();
    assert(0 <= x * one <= y * one) by (nonlinear_arith)
        requires
            0 <= x <= y,
            one > 0,
    ;
    rounding::lemma_nearest_grows(x * one, y * one, 1);
}

// --- Days --------------------------------------------------------------------

/// The days of a window are the whole days between its ends, and one where there
/// is none; ends that are missing give one.
pub proof fn days_are_whole_days(first: i64, last: i64)
    ensures
        0 < first <= last <= 8_210_266_876_799 ==> ({
            let days = enrich::days_of(first, last);
            &&& days >= 1
            &&& last - first < (days + 1) * 86_400
            &&& last - first >= 86_400 ==> days * 86_400 <= last - first
            &&& last - first < 86_400 ==> days == 1
        }),
        first == 0 || last == 0 ==> enrich::days_of(first, last) == 1,
        last > 8_210_266_876_799 || first > 8_210_266_876_799 ==> enrich::days_of(first, last) == 1,
{
}

/// The days of a window reach from its earliest commit to its latest, in whatever
/// order they stand.
pub proof fn days_span_the_window(
    window: Seq<&CommitRecord>,
    e: CommitEnrichment,
    i: int,
    j: int,
)
    requires
        enrich::is_window_enrichment(window, e),
        0 <= i < window.len(),
        0 <= j < window.len(),
        forall|k: int|
            0 <= k < window.len() ==> 0 < window[i].timestamp <= (
            #[trigger] window[k]).timestamp <= window[j].timestamp <= 8_210_266_876_799,
    ensures
        ({
            let span = window[j].timestamp - window[i].timestamp;
            &&& e.rewrite_duration_days matches Some(days) && days >= 1 && span < (days + 1) * 86_400
                && (days > 1 ==> days * 86_400 <= span)
        }),
{
    let days = e.rewrite_duration_days->0;
    let (first, last) = choose|first: i64, last: i64|
        #[trigger] enrich::is_first_time(window, first) && #[trigger] enrich::is_last_time(
            window,
            last,
        ) && days == enrich::days_of(first, last);
    assert(window[i].timestamp >= first);
    assert(window[j].timestamp <= last);
    let a = choose|k: int| 0 <= k < window.len() && (#[trigger] window[k]).timestamp == first;
    let b = choose|k: int| 0 <= k < window.len() && (#[trigger] window[k]).timestamp == last;
    assert(window[a].timestamp == first && window[b].timestamp == last);
    days_are_whole_days(first, last);
}

// --- Signs of assistance -----------------------------------------------------

/// A message is templated where it holds one of the phrases of translation work,
/// in whatever case, and not otherwise.
pub proof fn translation_work_is_noticed(c: CommitRecord)
    requires
        model::all_ascii(c.subject@),
    ensures
        ({
            let low = model::ascii_lowercase(c.subject@);
            enrich::is_templated(c) <==> {
                ||| model::contains(low, "refactor"@)
                ||| model::contains(low, "translate"@)
                ||| model::contains(low, "translation"@)
                ||| model::contains(low, "port module"@)
                ||| model::contains(low, "porting"@)
                ||| model::contains(low, "convert to rust"@)
                ||| model::contains(low, "migrate"@)
            }
        }),
{
    let low = model::ascii_lowercase(c.subject@);
    model::lemma_lowered_ascii(c.subject@);
    let table = enrich::AI_MSG_PATTERNS@;
    assert(table[0]@ == "refactor"@);
    assert(table[1]@ == "translate"@);
    assert(table[2]@ == "port module"@);
    assert(table[3]@ == "porting"@);
    assert(table[4]@ == "convert to rust"@);
    assert(table[5]@ == "migrate"@);
    assert(table[6]@ == "translation"@);
}

/// A commit is big by the lines that it adds alone: more than two thousand.
pub proof fn big_commits_add_lines(c: CommitRecord, change: Change)
    ensures
        enrich::is_big(c) <==> enrich::lines_in(c@.files, false) >= 2001,
        c@.files == seq![change] ==> (enrich::is_big(c) <==> change.added >= 2001),
{
    changes_add_their_lines(Seq::empty(), change);
    assert(Seq::<Change>::empty().push(change) =~= seq![change]);
}

/// Every commit is counted where it is templated, and where it is big.
pub proof fn signs_are_counted(window: Seq<&CommitRecord>, commit: &CommitRecord)
    ensures
        ({
            let n = window.len() as int;
            let more = window.push(commit);
            &&& enrich::templated_count(more, n + 1) == enrich::templated_count(window, n) + (
            if enrich::is_templated(*commit) {
                1int
            } else {
                0
            })
            &&& enrich::big_count(more, n + 1) == enrich::big_count(window, n) + (
            if enrich::is_big(*commit) {
                1int
            } else {
                0
            })
        }),
{
    let n = window.len() as int;
    lemma_counts_prefix(window, window.push(commit), n);
    assert(window.push(commit)[n] == commit);
}

proof fn lemma_counts_prefix(window: Seq<&CommitRecord>, more: Seq<&CommitRecord>, m: int)
    requires
        m <= window.len() <= more.len(),
        forall|i: int| 0 <= i < m ==> #[trigger] window[i] == more[i],
    ensures
        enrich::templated_count(window, m) == enrich::templated_count(more, m),
        enrich::big_count(window, m) == enrich::big_count(more, m),
    decreases m,
{
    if m > 0 {
        lemma_counts_prefix(window, more, m - 1);
        assert(window[m - 1] == more[m - 1]);
    }
}

// --- Bursts ------------------------------------------------------------------

/// A commit follows another within two days.
pub open spec fn follows_soon(earlier: CommitRecord, later: CommitRecord) -> bool {
    0 <= later.timestamp - earlier.timestamp <= 2 * 24 * 60 * 60
}

proof fn lemma_burst_counts(window: Seq<&CommitRecord>, from: int, k: nat, m: int)
    requires
        0 <= from,
        from + k <= window.len(),
        m <= window.len(),
        forall|i: int|
            from <= i < from + k ==> follows_soon(*window[from], *(#[trigger] window[i])),
    ensures
        m >= from + k ==> enrich::burst_count(window, window[from].timestamp, m) >= k,
        from <= m <= from + k ==> enrich::burst_count(window, window[from].timestamp, m) >= m
            - from,
    decreases m,
{
    if m > from {
        lemma_burst_counts(window, from, k, m - 1);
        if m <= from + k {
            assert(follows_soon(*window[from], *window[m - 1]));
        }
    }
}

/// Commits that all come within two days of the first of them are a burst of as
/// many.
pub proof fn quick_commits_are_a_burst(window: Seq<&CommitRecord>, from: int, k: nat)
    requires
        0 <= from,
        0 < k,
        from + k <= window.len(),
        forall|i: int|
            from <= i < from + k ==> follows_soon(*window[from], *(#[trigger] window[i])),
    ensures
        enrich::has_burst(window, k),
        k >= 3 ==> enrich::burst_of(window).count() > 0,
        k >= 10 ==> enrich::burst_of(window) == (Double { bits: 0x3fd0_0000_0000_0000 }),
        5 <= k ==> enrich::burst_of(window).at_least(Double { bits: 0x3fc3_3333_3333_3333 }),
        3 <= k ==> enrich::burst_of(window).at_least(Double { bits: 0x3fb4_7ae1_47ae_147b }),
{
    lemma_burst_counts(window, from, k, window.len() as int);
    assert(window[from] == window[from]);
    lemma_bursts_nest(window, k);
    rounding::lemma_units_grow(0, enrich::SMALL_BURST as int);
    rounding::lemma_units_grow(0, enrich::MEDIUM_BURST as int);
    rounding::lemma_units_grow(0, enrich::LARGE_BURST as int);
}

/// A burst is one of fewer commits too.
proof fn lemma_bursts_nest(window: Seq<&CommitRecord>, k: nat)
    requires
        enrich::has_burst(window, k),
    ensures
        forall|j: nat| j <= k ==> #[trigger] enrich::has_burst(window, j),
{
    let i = choose|i: int|
        0 <= i < window.len() && enrich::burst_count(
            window,
            (#[trigger] window[i]).timestamp,
            window.len() as int,
        ) >= k;
    assert forall|j: nat| j <= k implies #[trigger] enrich::has_burst(window, j) by {
        assert(enrich::burst_count(window, window[i].timestamp, window.len() as int) >= j);
    }
}

proof fn lemma_lone(window: Seq<&CommitRecord>, at: int, m: int)
    requires
        0 <= at < window.len(),
        m <= window.len(),
        forall|j: int|
            0 <= j < window.len() && j != at ==> !follows_soon(*window[at], *(#[trigger] window[j])),
    ensures
        enrich::burst_count(window, window[at].timestamp, m) <= 1,
        m <= at ==> enrich::burst_count(window, window[at].timestamp, m) == 0,
    decreases m,
{
    if m > 0 {
        lemma_lone(window, at, m - 1);
        if m - 1 != at {
            assert(!follows_soon(*window[at], *window[m - 1]));
        }
    }
}

/// Commits of which none follows another within two days are no burst.
pub proof fn slow_commits_are_no_burst(window: Seq<&CommitRecord>)
    requires
        forall|i: int, j: int|
            0 <= i < window.len() && 0 <= j < window.len() && i != j ==> !follows_soon(
                *(#[trigger] window[i]),
                *(#[trigger] window[j]),
            ),
    ensures
        !enrich::has_burst(window, 2),
        enrich::burst_of(window) == (Double { bits: 0 }),
{
    assert forall|i: int| 0 <= i < window.len() implies enrich::burst_count(
        window,
        (#[trigger] window[i]).timestamp,
        window.len() as int,
    ) <= 1 by {
        lemma_lone(window, i, window.len() as int);
    }
}

// --- The score ---------------------------------------------------------------

/// A number from zero to one.
proof fn lemma_part(x: Double)
    requires
        !x.is_negative(),
        (Double { bits: double::ONE }).at_least(x),
    ensures
        numbers::is_moderate(x),
        double::is_at_most(x, 1),
{
    double::lemma_units_of_one();
    rounding::lemma_units_grow(x.magnitude(), double::ONE as int);
    double::lemma_at_most_one(x);
}

proof fn lemma_share(some: int, commits: int)
    requires
        0 <= some <= u128::MAX,
        0 < commits <= u128::MAX,
    ensures
        !enrich::share_score(some, commits).is_negative(),
        (Double { bits: 0x3fd0_0000_0000_0000 }).at_least(enrich::share_score(some, commits)),
{
    lemma_integers_keep_order(0, some);
    double::lemma_integer_range(some);
    double::lemma_integer_range(commits);
    let share = double::quotient(double::integer(some), double::integer(commits));
    double::quotients_keep_order(
        double::integer(some),
        double::integer(some),
        double::integer(commits),
    );
    double::products_keep_order(share, share, Double { bits: enrich::COMMIT_SHARE_WEIGHT });
}

/// A sum of parts, each at most one, is no less than any of them.
proof fn lemma_running_sum(x: Double, y: Double, most: int)
    requires
        numbers::is_moderate(x),
        numbers::is_moderate(y),
        double::is_at_most(x, most),
        double::is_at_most(y, 1),
        0 < most < 10,
    ensures
        numbers::is_moderate(double::sum(x, y)),
        double::is_at_most(double::sum(x, y), most + 1),
        double::sum(x, y).at_least(x),
        double::sum(x, y).at_least(y),
{
    numbers::sums_are_accurate(x, y);
    double::sums_are_bounded(x, y, most, 1);
    let s = double::sum(x, y);
    double::lemma_units_of_one();
    assert((most + 1) * rounding::unit() <= 1000 * rounding::unit()) by (nonlinear_arith)
        requires
            0 < most < 10,
            rounding::unit() > 0,
    ;
    if s.magnitude() < x.magnitude() {
        rounding::lemma_units_grow(s.magnitude(), x.magnitude());
    }
    if s.magnitude() < y.magnitude() {
        rounding::lemma_units_grow(s.magnitude(), y.magnitude());
    }
}

/// Large commits, templated messages, big commits and bursts all count: the score
/// is no less than what any of them gives alone.
pub proof fn every_sign_counts(window: Seq<&CommitRecord>, lines: int)
    requires
        0 < window.len() <= u64::MAX,
        0 <= lines <= u128::MAX,
    ensures
        ({
            let n = window.len() as int;
            let score = enrich::ai_score(window, lines);
            let templated = enrich::templated_count(window, n) as int;
            let big = enrich::big_count(window, n) as int;
            &&& score.at_least(
                double::rounded_to(enrich::size_score(lines, n), double::integer(100).bits),
            )
            &&& score.at_least(
                double::rounded_to(enrich::share_score(templated, n), double::integer(100).bits),
            )
            &&& big > 0 ==> score.at_least(
                double::rounded_to(enrich::share_score(big, n), double::integer(100).bits),
            )
            &&& score.at_least(
                double::rounded_to(enrich::burst_of(window), double::integer(100).bits),
            )
        }),
{
    let n = window.len() as int;
    let zero = Double { bits: 0 };
    let size_part = enrich::size_score(lines, n);
    lemma_counts_are_bounded(window, n);
    let t = enrich::templated_count(window, n) as int;
    let b = enrich::big_count(window, n) as int;
    let templated_part = enrich::share_score(t, n);
    let big_part = enrich::share_score(b, n);
    let burst_part = double::capped(enrich::burst_of(window), enrich::COMMIT_SHARE_WEIGHT);
    assert(burst_part == enrich::burst_of(window));
    lemma_share(t, n);
    lemma_share(b, n);
    lemma_part(zero);
    lemma_part(size_part);
    lemma_part(templated_part);
    lemma_part(big_part);
    lemma_part(burst_part);
    let size = double::sum(zero, size_part);
    lemma_running_sum(zero, size_part, 1);
    let templated = double::sum(size, templated_part);
    lemma_running_sum(size, templated_part, 2);
    let big = if b > 0 {
        double::sum(templated, big_part)
    } else {
        templated
    };
    lemma_running_sum(templated, big_part, 3);
    let burst = double::sum(big, burst_part);
    if b > 0 {
        lemma_running_sum(big, burst_part, 4);
    } else {
        lemma_running_sum(big, burst_part, 3);
    }
    let all = double::clamped(burst);
    double::lemma_scales();
    double::rounding_keeps_order(size_part, all, double::HUNDRED);
    double::rounding_keeps_order(templated_part, all, double::HUNDRED);
    double::rounding_keeps_order(burst_part, all, double::HUNDRED);
    if b > 0 {
        double::rounding_keeps_order(big_part, all, double::HUNDRED);
    }
}

proof fn lemma_counts_are_bounded(window: Seq<&CommitRecord>, m: int)
    requires
        0 <= m,
    ensures
        enrich::templated_count(window, m) <= m,
        enrich::big_count(window, m) <= m,
    decreases m,
{
    if m > 0 {
        lemma_counts_are_bounded(window, m - 1);
    }
}

/// Without lines and without any sign there is no score.
pub proof fn without_signs_there_is_no_score(window: Seq<&CommitRecord>)
    requires
        0 < window.len() <= u64::MAX,
        enrich::templated_count(window, window.len() as int) == 0,
        enrich::big_count(window, window.len() as int) == 0,
        !enrich::has_burst(window, 3),
    ensures
        enrich::ai_score(window, 0).count() == 0,
        enrich::ai_score(Seq::empty(), 0).count() == 0,
{
    let n = window.len() as int;
    assert(!enrich::has_burst(window, 5)) by {
        if enrich::has_burst(window, 5) {
            lemma_bursts_nest(window, 5);
        }
    }
    assert(!enrich::has_burst(window, 10)) by {
        if enrich::has_burst(window, 10) {
            lemma_bursts_nest(window, 10);
        }
    }
    let zero = Double { bits: 0 };
    assert(rounding::nearest(0, 1) == 0);
    assert(double::integer(0) == zero);
    double::lemma_integer_range(n);
    lemma_integers_keep_order(0, n);
    let one = rounding::unit();
    double::lemma_units_of_one();
    double::lemma_scales();
    let d = rounding::units(double::integer(n).magnitude());
    rounding::lemma_units_grow(0, double::integer(n).magnitude());
    lemma_nothing(d);
    lemma_nothing(one);
    assert(0 * one == 0);
    let share = double::quotient(zero, double::integer(n));
    assert(share == zero);
    assert(double::product(zero, Double { bits: enrich::COMMIT_SHARE_WEIGHT }) == zero);
    assert(enrich::share_score(0, n) == zero);
    assert(enrich::size_score(0, n) == zero);
    assert(double::sum(zero, zero) == zero);
    double::lemma_zero_is_round(double::HUNDRED);
}

/// None of anything is nothing.
proof fn lemma_nothing(d: int)
    requires
        d > 0,
    ensures
        rounding::nearest(0, d) == 0,
{
    assert(0int / d == 0 && 0int % d == 0) by (nonlinear_arith)
        requires
            d > 0,
    ;
}

/// The average of lines over commits, against a whole number of lines a commit.
proof fn lemma_average(lines: int, commits: int, each: int)
    requires
        0 <= lines < rounding::DENSE,
        0 < commits < 0x1_0000_0000,
        0 < each < 1000,
    ensures
        ({
            let average = double::quotient(double::integer(lines), double::integer(commits));
            &&& lines >= each * commits ==> average.at_least(double::integer(each))
            &&& lines <= each * commits ==> double::integer(each).at_least(average)
        }),
{
    let one = rounding::unit();
    double::lemma_units_of_one();
    double::lemma_integer(commits);
    double::lemma_integer(each);
    double::lemma_integer_range(lines);
    if lines > 0 {
        double::lemma_integer(lines);
    } else {
        assert(rounding::nearest(0, 1) == 0);
        assert(0 * one == 0);
        assert(rounding::units(0) == 0);
    }
    let n = lines * one;
    let d = commits * one;
    assert(double::integer(lines).count() == n);
    rounding::lemma_nearest_scales(n, commits, one);
    let m = (each * one) * commits;
    rounding::lemma_nearest_scales(each * one, 1, commits);
    assert(1 * commits == commits);
    assert(0 <= n) by (nonlinear_arith)
        requires
            n == lines * one,
            lines >= 0,
            one > 0,
    ;
    assert(0 < each * one) by (nonlinear_arith)
        requires
            each > 0,
            one > 0,
    ;
    assert(m == (each * commits) * one) by (nonlinear_arith)
        requires
            m == (each * one) * commits,
    ;
    assert(0 <= m) by (nonlinear_arith)
        requires
            m == (each * one) * commits,
            each > 0,
            one > 0,
            commits > 0,
    ;
    let at = double::integer(each).magnitude();
    assert(rounding::nearest(m, commits) == at);
    if lines >= each * commits {
        assert(m <= n) by (nonlinear_arith)
            requires
                m == (each * commits) * one,
                n == lines * one,
                lines >= each * commits,
                one > 0,
        ;
        rounding::lemma_nearest_grows(m, n, commits);
    }
    if lines <= each * commits {
        assert(n <= m) by (nonlinear_arith)
            requires
                m == (each * commits) * one,
                n == lines * one,
                lines <= each * commits,
                one > 0,
        ;
        rounding::lemma_nearest_grows(n, m, commits);
    }
}

/// Commits of more than five hundred lines on average count 0.30, of more than two
/// hundred 0.15, and smaller ones nothing.
pub proof fn large_commits_count(lines: int, commits: int)
    requires
        0 <= lines < rounding::DENSE,
        0 < commits < 0x1_0000_0000,
    ensures
        lines >= 501 * commits ==> enrich::size_score(lines, commits) == (Double {
            bits: 0x3fd3_3333_3333_3333,
        }),
        201 * commits <= lines <= 500 * commits ==> enrich::size_score(lines, commits) == (Double {
            bits: 0x3fc3_3333_3333_3333,
        }),
        lines <= 200 * commits ==> enrich::size_score(lines, commits) == (Double { bits: 0 }),
{
    lemma_average(lines, commits, 501);
    lemma_average(lines, commits, 500);
    lemma_average(lines, commits, 201);
    lemma_average(lines, commits, 200);
    vstd::arithmetic::power2::lemma2_to64_rest();
    vstd::arithmetic::power2::lemma2_to64();
    double::lemma_constant(enrich::LARGE_AVERAGE, 0x1f_4000_0000_0000, 1030, 500, 44);
    double::lemma_constant(enrich::MEDIUM_AVERAGE, 0x19_0000_0000_0000, 1029, 200, 45);
    double::lemma_integer(501);
    double::lemma_integer(500);
    double::lemma_integer(201);
    double::lemma_integer(200);
    let one = rounding::unit();
    double::lemma_units_of_one();
    if double::integer(501).magnitude() <= double::integer(500).magnitude() {
        rounding::lemma_units_grow(
            double::integer(501).magnitude(),
            double::integer(500).magnitude(),
        );
    }
    if double::integer(201).magnitude() <= double::integer(200).magnitude() {
        rounding::lemma_units_grow(
            double::integer(201).magnitude(),
            double::integer(200).magnitude(),
        );
    }
    if double::integer(500).magnitude() <= double::integer(200).magnitude() {
        rounding::lemma_units_grow(
            double::integer(500).magnitude(),
            double::integer(200).magnitude(),
        );
    }
}

/// The share of commits with a sign counts more the larger it is, up to a quarter where
/// all of them have it.
pub proof fn shares_of_signs_grow(some: int, more: int, commits: int)
    requires
        0 <= some <= more <= commits,
        0 < commits < rounding::DENSE,
    ensures
        enrich::share_score(more, commits).at_least(enrich::share_score(some, commits)),
        enrich::share_score(commits, commits) == (Double { bits: 0x3fd0_0000_0000_0000 }),
{
    let weight = Double { bits: enrich::COMMIT_SHARE_WEIGHT };
    lemma_integers_keep_order(some, more);
    double::lemma_integer(commits);
    let (x, y) = (
        double::quotient(double::integer(some), double::integer(commits)),
        double::quotient(double::integer(more), double::integer(commits)),
    );
    double::quotients_keep_order(
        double::integer(some),
        double::integer(more),
        double::integer(commits),
    );
    double::products_keep_order(x, y, weight);
    let one = rounding::unit();
    double::lemma_units_of_one();
    let u = double::integer(commits).count();
    rounding::lemma_units_grow(0, double::integer(commits).magnitude());
    rounding::lemma_nearest_scales(one, 1, u);
    assert(one * u == u * one && 1 * u == u) by (nonlinear_arith);
    rounding::lemma_nearest_exact(double::ONE as int);
    let whole = double::quotient(double::integer(commits), double::integer(commits));
    assert(whole == (Double { bits: double::ONE }));
    let m = rounding::units(weight.magnitude());
    rounding::lemma_units_grow(0, weight.magnitude());
    rounding::lemma_nearest_scales(m, 1, one);
    assert(one * m == m * one && 1 * one == one) by (nonlinear_arith);
    rounding::lemma_nearest_exact(weight.magnitude());
    assert(double::product(whole, weight) == weight);
}

} // verus!
