//! Laws of the walk over a commit history.

use crate::detect::commits;
use crate::detect::git_history;
use crate::detect::git_history::{Change, Commit, CommitRecord};
use crate::detect::transitions;
use crate::detect::transitions::{
    HistoryAnalysis, HistoryOptions, LanguageShare, SegmentShares, SharePoint,
};
use crate::double;
use crate::double::Double;
use crate::laws::numbers;
use crate::rounding;
use crate::rounding::DENSE;
use crate::text_model as model;
use vstd::prelude::*;
use vstd::string::*;

verus! {

// --- Counting lines ----------------------------------------------------------

/// A count of lines that is read as what it is.
pub open spec fn is_plain(change: Change) -> bool {
    change.added <= i64::MAX && change.removed <= i64::MAX
}

/// A file change that takes off no more lines of its language than there are, once
/// its own are added, changes the count by exactly what it adds less what it
/// removes, and leaves every other language as it was.
pub proof fn changes_count_exactly(
    net: Map<Seq<char>, int>,
    change: Change,
    language: Seq<char>,
    held: int,
)
    requires
        git_history::language_of(change.path) == Some(language),
        is_plain(change),
        if net.dom().contains(language) {
            net[language] == held
        } else {
            held == 0
        },
        0 <= change.removed <= held + change.added <= i64::MAX,
    ensures
        ({
            let after = transitions::after_change(net, change);
            &&& after is Some
            &&& transitions::lines_of(after->0, language) == held + change.added - change.removed
            &&& forall|other: Seq<char>|
                other != language ==> #[trigger] transitions::lines_of(after->0, other)
                    == transitions::lines_of(net, other)
        }),
{
}

/// A file change that takes off more lines of its language than there are leaves
/// none of it.
pub proof fn counts_stop_at_none(
    net: Map<Seq<char>, int>,
    change: Change,
    language: Seq<char>,
    held: int,
)
    requires
        git_history::language_of(change.path) == Some(language),
        is_plain(change),
        if net.dom().contains(language) {
            net[language] == held
        } else {
            held == 0
        },
        0 <= held <= i64::MAX,
        held + change.added < change.removed,
    ensures
        ({
            let after = transitions::after_change(net, change);
            &&& after is Some
            &&& transitions::lines_of(after->0, language) == 0
            &&& forall|other: Seq<char>|
                other != language ==> #[trigger] transitions::lines_of(after->0, other)
                    == transitions::lines_of(net, other)
        }),
{
}

/// A change of a file without a language changes no count.
pub proof fn files_without_a_language_do_not_count(net: Map<Seq<char>, int>, change: Change)
    requires
        git_history::language_of(change.path) is None,
    ensures
        transitions::after_change(net, change) == Some(net),
{
}

/// Lines that are removed and added back leave the count as it was.
pub proof fn lines_come_back(
    net: Map<Seq<char>, int>,
    taken: Change,
    back: Change,
    language: Seq<char>,
)
    requires
        git_history::language_of(taken.path) == Some(language),
        git_history::language_of(back.path) == Some(language),
        taken.added == 0 && back.removed == 0,
        taken.removed == back.added,
        net.dom().contains(language),
        taken.removed <= net[language] <= i64::MAX,
    ensures
        ({
            let after = transitions::after_changes(net, seq![taken, back]);
            after is Some && transitions::lines_of(after->0, language) == net[language]
        }),
{
    let both = seq![taken, back];
    let one = seq![taken];
    changes_count_exactly(net, taken, language, net[language]);
    let between = transitions::after_change(net, taken)->0;
    assert(both.drop_last() =~= one);
    assert(one.drop_last() =~= Seq::empty());
    assert(transitions::after_changes(net, one.drop_last()) == Some(net));
    assert(transitions::after_changes(net, one) == Some(between));
    changes_count_exactly(
        between,
        back,
        language,
        transitions::lines_of(between, language),
    );
}

/// The lines that changes of files in a language add, less those that they remove.
pub open spec fn balance(changes: Seq<Change>, language: Seq<char>) -> int
    decreases changes.len(),
{
    if changes.len() == 0 {
        0
    } else {
        balance(changes.drop_last(), language) + if git_history::language_of(changes.last().path)
            == Some(language) {
            changes.last().added - changes.last().removed
        } else {
            0
        }
    }
}

/// All file changes of the first `n` commits, in order.
pub open spec fn changes_until(commits: Seq<Commit>, n: int) -> Seq<Change>
    decreases n,
{
    if n <= 0 {
        Seq::empty()
    } else {
        changes_until(commits, n - 1) + commits[n - 1].files
    }
}

/// The balance of a language never falls below none.
pub open spec fn never_overdrawn(changes: Seq<Change>, language: Seq<char>) -> bool {
    forall|i: int| 0 <= i <= changes.len() ==> balance(#[trigger] changes.take(i), language) >= 0
}

proof fn lemma_changes_balance(changes: Seq<Change>, language: Seq<char>, i: int)
    requires
        0 <= i <= changes.len(),
        forall|k: int| 0 <= k < changes.len() ==> is_plain(#[trigger] changes[k]),
        transitions::after_changes(Map::empty(), changes.take(i)) is Some,
    ensures
        ({
            let net = transitions::after_changes(Map::empty(), changes.take(i))->0;
            &&& transitions::lines_of(net, language) >= 0
            &&& transitions::lines_of(net, language) >= balance(changes.take(i), language)
            &&& never_overdrawn(changes, language) ==> transitions::lines_of(net, language)
                == balance(changes.take(i), language)
        }),
    decreases i,
{
    if i > 0 {
        assert(changes.take(i).drop_last() =~= changes.take(i - 1));
        assert(changes.take(i).last() == changes[i - 1]);
        lemma_changes_balance(changes, language, i - 1);
        assert(is_plain(changes[i - 1]));
        if never_overdrawn(changes, language) {
            assert(balance(changes.take(i), language) >= 0);
        }
    }
}

proof fn lemma_changes_in_two(net: Map<Seq<char>, int>, first: Seq<Change>, second: Seq<Change>)
    ensures
        transitions::after_changes(net, first + second) == match transitions::after_changes(
            net,
            first,
        ) {
            Some(between) => transitions::after_changes(between, second),
            None => None,
        },
    decreases second.len(),
{
    if second.len() == 0 {
        assert(first + second =~= first);
    } else {
        lemma_changes_in_two(net, first, second.drop_last());
        assert((first + second).drop_last() =~= first + second.drop_last());
    }
}

proof fn lemma_walk(commits: Seq<Commit>, n: int)
    ensures
        transitions::composition(commits, n) == transitions::after_changes(
            Map::empty(),
            changes_until(commits, n),
        ),
    decreases n,
{
    if n > 0 {
        lemma_walk(commits, n - 1);
        lemma_changes_in_two(
            Map::empty(),
            changes_until(commits, n - 1),
            commits[n - 1].files,
        );
    }
}

/// After some commits a language has at least the lines that were added to it less
/// those that were removed, and exactly so many where no more were ever removed
/// than there were.
pub proof fn histories_add_up(commits: Seq<Commit>, n: int, language: Seq<char>)
    requires
        forall|k: int|
            0 <= k < changes_until(commits, n).len() ==> is_plain(
                #[trigger] changes_until(commits, n)[k],
            ),
        transitions::composition(commits, n) is Some,
    ensures
        ({
            let lines = transitions::lines_of(transitions::composition(commits, n)->0, language);
            let changes = changes_until(commits, n);
            &&& lines >= 0
            &&& lines >= balance(changes, language)
            &&& never_overdrawn(changes, language) ==> lines == balance(changes, language)
        }),
{
    let changes = changes_until(commits, n);
    lemma_walk(commits, n);
    assert(changes.take(changes.len() as int) =~= changes);
    lemma_changes_balance(changes, language, changes.len() as int);
}

/// The lines that changes add, in whatever file.
pub open spec fn additions(changes: Seq<Change>) -> int
    decreases changes.len(),
{
    if changes.len() == 0 {
        0
    } else {
        additions(changes.drop_last()) + changes.last().added
    }
}

proof fn lemma_additions_bound(changes: Seq<Change>, i: int, language: Seq<char>)
    requires
        0 <= i <= changes.len(),
        forall|k: int| 0 <= k < changes.len() ==> is_plain(#[trigger] changes[k]),
        additions(changes) <= i64::MAX,
    ensures
        additions(changes.take(i)) <= additions(changes),
        transitions::after_changes(Map::empty(), changes.take(i)) is Some,
        0 <= transitions::lines_of(
            transitions::after_changes(Map::empty(), changes.take(i))->0,
            language,
        ) <= additions(changes.take(i)),
    decreases i,
{
    lemma_additions_grow(changes, i);
    if i > 0 {
        assert(changes.take(i).drop_last() =~= changes.take(i - 1));
        assert(changes.take(i).last() == changes[i - 1]);
        assert(is_plain(changes[i - 1]));
        lemma_additions_bound(changes, i - 1, language);
        if let Some(own) = git_history::language_of(changes[i - 1].path) {
            lemma_additions_bound(changes, i - 1, own);
        }
    }
}

proof fn lemma_additions_grow(changes: Seq<Change>, i: int)
    requires
        0 <= i <= changes.len(),
    ensures
        additions(changes.take(i)) <= additions(changes),
    decreases changes.len() - i,
{
    if i < changes.len() {
        lemma_additions_grow(changes, i + 1);
        assert(changes.take(i + 1).drop_last() =~= changes.take(i));
    } else {
        assert(changes.take(i) =~= changes);
    }
}

/// A history that adds no more lines than a signed number holds can be counted, and
/// no language ends with more lines than were added.
pub proof fn ordinary_histories_are_counted(commits: Seq<Commit>, n: int, language: Seq<char>)
    requires
        forall|k: int|
            0 <= k < changes_until(commits, n).len() ==> is_plain(
                #[trigger] changes_until(commits, n)[k],
            ),
        additions(changes_until(commits, n)) <= i64::MAX,
    ensures
        transitions::composition(commits, n) is Some,
        0 <= transitions::lines_of(transitions::composition(commits, n)->0, language) <= additions(
            changes_until(commits, n),
        ),
{
    let changes = changes_until(commits, n);
    lemma_walk(commits, n);
    assert(changes.take(changes.len() as int) =~= changes);
    lemma_additions_bound(changes, changes.len() as int, language);
}

// --- Shares ------------------------------------------------------------------

/// The total of a composition is that of its languages: one more adds its lines.
pub proof fn every_language_is_in_the_total(
    net: Map<Seq<char>, int>,
    language: Seq<char>,
    lines: int,
)
    requires
        net.dom().finite(),
        !net.dom().contains(language),
        lines >= 0,
    ensures
        transitions::total_lines(Map::empty()) == 0,
        transitions::total_lines(net.insert(language, lines)) == transitions::total_lines(net)
            + lines,
{
    let more = net.insert(language, lines);
    transitions::lemma_total_without(more, language);
    assert(more.remove(language) =~= net);
    assert(Map::<Seq<char>, int>::empty().dom().len() == 0);
}

/// The share of Rust is its lines in percent of all lines, but for rounding, and
/// none of nothing.
pub proof fn shares_are_of_all_lines(net: Map<Seq<char>, int>, rust: int, total: int)
    requires
        rust == transitions::lines_of(net, "Rust"@),
        total == transitions::total_lines(net),
        0 <= rust <= total <= u128::MAX,
    ensures
        total > 0 ==> numbers::is_near(
            transitions::rust_share_of(net).count(),
            100 * rust * rounding::unit(),
            total,
            8,
        ),
        total == 0 ==> transitions::rust_share_of(net).count() == 0,
{
    if total > 0 {
        numbers::percents_are_accurate(rust, total);
    }
}

/// A composition of Rust alone.
pub open spec fn is_all(net: Map<Seq<char>, int>, language: Seq<char>) -> bool {
    transitions::lines_of(net, language) > 0 && transitions::lines_of(net, language)
        == transitions::total_lines(net) && transitions::total_lines(net) <= u128::MAX
}

/// A composition without lines of a language.
pub open spec fn is_none(net: Map<Seq<char>, int>, language: Seq<char>) -> bool {
    transitions::lines_of(net, language) <= 0
}

/// The compositions among the first `n` that are of a language alone.
pub open spec fn wholes(nets: Seq<Map<Seq<char>, int>>, language: Seq<char>, n: int) -> int
    decreases n,
{
    if n <= 0 {
        0
    } else {
        wholes(nets, language, n - 1) + if is_all(nets[n - 1], language) {
            1int
        } else {
            0
        }
    }
}

proof fn lemma_whole_share(lines: int)
    requires
        0 < lines <= u128::MAX,
    ensures
        double::percent(lines, lines) == double::integer(100),
{
    let one = rounding::unit();
    numbers::integers_are_near(lines);
    double::lemma_units_of_one();
    double::lemma_scales();
    double::lemma_integer(100);
    let u = double::integer(lines).count();
    rounding::lemma_nearest_scales(one, 1, u);
    rounding::lemma_nearest_exact(double::ONE as int);
    assert(u * one == one * u && 1 * u == u) by (nonlinear_arith);
    let q = double::quotient(double::integer(lines), double::integer(lines));
    assert(q == (Double { bits: double::ONE }));
    rounding::lemma_nearest_scales(100 * one, 1, one);
    assert(one * (100 * one) == (100 * one) * one && 1 * one == one) by (nonlinear_arith);
    rounding::lemma_nearest_exact(double::HUNDRED as int);
}

proof fn lemma_sum_of_wholes(nets: Seq<Map<Seq<char>, int>>, language: Seq<char>, n: int)
    requires
        0 <= n <= nets.len(),
        n < 0x10_0000_0000,
        forall|k: int|
            0 <= k < nets.len() ==> is_all(#[trigger] nets[k], language) || is_none(
                nets[k],
                language,
            ),
    ensures
        0 <= wholes(nets, language, n) <= n,
        transitions::share_sum(nets, language, n).count() == 100 * wholes(nets, language, n)
            * rounding::unit(),
        !transitions::share_sum(nets, language, n).is_negative(),
        transitions::share_sum(nets, language, n).is_finite(),
    decreases n,
{
    let one = rounding::unit();
    if n > 0 {
        lemma_sum_of_wholes(nets, language, n - 1);
        let k = wholes(nets, language, n - 1);
        let before = transitions::share_sum(nets, language, n - 1);
        if is_all(nets[n - 1], language) {
            lemma_whole_share(transitions::lines_of(nets[n - 1], language));
            double::lemma_integer(100);
            double::lemma_integer(100 * k + 100);
            assert(100 * k * one + 100 * one == (100 * k + 100) * one && 100 * (k + 1) * one == (100
                * k + 100) * one) by (nonlinear_arith);
            rounding::lemma_units_grow(0, before.magnitude());
            double::lemma_units_of_one();
            assert((100 * k + 100) * one > 0) by (nonlinear_arith)
                requires
                    k >= 0,
                    one > 0,
            ;
            let after = double::sum(before, double::integer(100));
            assert(after == double::integer(100 * k + 100));
        } else {
            assert(is_none(nets[n - 1], language));
        }
    } else {
        assert(100 * 0 * one == 0) by (nonlinear_arith);
    }
}

/// Where each sample is wholly of a language or has none of it, its average share is
/// the part of the samples that are: samples without any lines count as well.
pub proof fn averages_are_over_all_samples(nets: Seq<Map<Seq<char>, int>>, language: Seq<char>)
    requires
        0 < nets.len() < 0x10_0000_0000,
        forall|k: int|
            0 <= k < nets.len() ==> is_all(#[trigger] nets[k], language) || is_none(
                nets[k],
                language,
            ),
    ensures
        ({
            let n = nets.len() as int;
            let k = wholes(nets, language, n);
            let share = transitions::average_share(nets, language);
            &&& 0 <= k <= n
            &&& k == 0 ==> share == (Double { bits: 0 })
            &&& k == n ==> share == double::integer(100)
            &&& k > 0 ==> share == double::quotient(double::integer(100 * k), double::integer(n))
        }),
{
    let one = rounding::unit();
    let n = nets.len() as int;
    let k = wholes(nets, language, n);
    lemma_sum_of_wholes(nets, language, n);
    double::lemma_integer(n);
    double::lemma_units_of_one();
    let sum = transitions::share_sum(nets, language, n);
    if k > 0 {
        double::lemma_integer(100 * k);
        assert(100 * k * one == (100 * k) * one);
        lemma_same_count(sum, double::integer(100 * k));
        if k == n {
            double::lemma_scales();
            double::lemma_integer(100);
            assert((100 * n) * one * one == (100 * one) * (n * one) && 1 * (n * one) == n * one && n
                * one > 0) by (nonlinear_arith)
                requires
                    n > 0,
                    one > 0,
            ;
            rounding::lemma_nearest_scales(100 * one, 1, n * one);
        }
    } else {
        assert(100 * 0 * one == 0) by (nonlinear_arith);
        rounding::lemma_units_grow(0, sum.magnitude());
        if sum.magnitude() > 0 {
            rounding::lemma_units_grow(0, sum.magnitude());
        }
        assert(sum == (Double { bits: 0 }));
        assert(0 * one == 0) by (nonlinear_arith);
        assert(0 < (n * one) * DENSE && 0int / (n * one) == 0 && 0int % (n * one) == 0)
            by (nonlinear_arith)
            requires
                n > 0,
                one > 0,
        ;
    }
}

/// Numbers that are not negative are the same where they count the same.
proof fn lemma_same_count(x: Double, y: Double)
    requires
        !x.is_negative() && x.is_finite(),
        !y.is_negative() && y.is_finite(),
        x.count() == y.count(),
    ensures
        x == y,
{
    if x.magnitude() < y.magnitude() {
        rounding::lemma_units_grow(x.magnitude(), y.magnitude());
    } else if y.magnitude() < x.magnitude() {
        rounding::lemma_units_grow(y.magnitude(), x.magnitude());
    }
}

// --- Samples -----------------------------------------------------------------

proof fn lemma_every_commit(n: int, upto: int)
    requires
        0 <= upto <= n,
    ensures
        transitions::sampled(n, 1, upto) == Seq::new(upto as nat, |k: int| k),
    decreases upto,
{
    if upto > 0 {
        lemma_every_commit(n, upto - 1);
        assert((upto - 1) % 1 == 0) by (nonlinear_arith);
        assert(Seq::new((upto - 1) as nat, |k: int| k).push(upto - 1) =~= Seq::new(
            upto as nat,
            |k: int| k,
        ));
    } else {
        assert(Seq::new(0, |k: int| k) =~= Seq::empty());
    }
}

/// In a history of no more commits than samples, or than a hundred, every commit is
/// sampled.
pub proof fn short_histories_are_sampled_whole(n: int, max_points: int)
    requires
        0 <= n,
        n <= max_points || n <= 100,
    ensures
        transitions::sample_indices(n, max_points).len() == n,
        forall|k: int| 0 <= k < n ==> #[trigger] transitions::sample_indices(n, max_points)[k] == k,
{
    lemma_every_commit(n, n);
}

/// The segments are the first and the last fifth of the samples: no fewer, and not
/// one more than that takes.
pub proof fn segments_are_a_fifth(samples: int)
    requires
        samples > 0,
    ensures
        5 * transitions::segment_size(samples) >= samples,
        5 * (transitions::segment_size(samples) - 1) < samples,
        0 < transitions::segment_size(samples) <= samples,
{
}

// --- Verdict -----------------------------------------------------------------

/// The thresholds are whole numbers.
proof fn lemma_thresholds()
    ensures
        (Double { bits: transitions::MIN_TRANSITION_MAGNITUDE }) == double::integer(25),
        (Double { bits: transitions::MIN_RUST_AFTER_FOR_STRONG }) == double::integer(40),
        (Double { bits: transitions::MAX_RUST_BEFORE_FOR_MIGRATION }) == double::integer(35),
        (Double { bits: transitions::MIN_RUST_RISE }) == double::integer(5),
        (Double { bits: transitions::MIN_DOMINANT_SHARE }) == double::integer(15),
        (Double { bits: transitions::MIN_NAMED_MAGNITUDE }) == double::integer(10),
        (Double { bits: transitions::MIN_SLOPE }) == double::integer(5),
        (Double { bits: transitions::LOW_RUST_SHARE }) == double::integer(25),
        (Double { bits: transitions::HIGH_RUST_SHARE }) == double::integer(50),
{
    vstd::arithmetic::power2::lemma2_to64_rest();
    double::lemma_constant(0x4039_0000_0000_0000, 0x19_0000_0000_0000, 1026, 25, 48);
    double::lemma_constant(0x4044_0000_0000_0000, 0x14_0000_0000_0000, 1027, 40, 47);
    double::lemma_constant(0x4041_8000_0000_0000, 0x11_8000_0000_0000, 1027, 35, 47);
    double::lemma_constant(0x4014_0000_0000_0000, 0x14_0000_0000_0000, 1024, 5, 50);
    double::lemma_constant(0x402e_0000_0000_0000, 0x1e_0000_0000_0000, 1025, 15, 49);
    double::lemma_constant(0x4024_0000_0000_0000, 0x14_0000_0000_0000, 1025, 10, 49);
    double::lemma_constant(0x4049_0000_0000_0000, 0x19_0000_0000_0000, 1027, 50, 47);
}

/// A language of the early history that Rust can have displaced: not Rust itself,
/// and with at least fifteen percent.
pub open spec fn contends(entry: LanguageShare) -> bool {
    !model::eq_ignore_ascii_case(entry.language@, "rust"@) && entry.share.at_least(
        double::integer(15),
    )
}

/// The share of Rust rose by more than five points, from less than thirty-five
/// percent.
pub open spec fn rose(shares: SegmentShares) -> bool {
    &&& shares.rust_after.above(double::sum(shares.rust_before, double::integer(5)))
    &&& double::integer(35).above(shares.rust_before)
}

/// Where Rust rose by at least ten points from little, the language that it displaced
/// is the one with the largest share of the early history, if that is a real
/// application language.
pub proof fn the_largest_early_language_is_displaced(
    nets: Seq<Map<Seq<char>, int>>,
    shares: SegmentShares,
    i: int,
)
    requires
        transitions::are_segment_shares(nets, shares),
        rose(shares),
        shares.rise.at_least(double::integer(10)),
        0 <= i < shares.early@.len(),
        contends(shares.early@[i]),
        forall|j: int|
            0 <= j < shares.early@.len() && j != i && contends(#[trigger] shares.early@[j])
                ==> shares.early@[i].share.above(shares.early@[j].share),
    ensures
        !commits::is_noise(shares.early@[i].language@) ==> transitions::displaced_by_rust(shares)
            == Some(shares.early@[i].language@),
        commits::is_noise(shares.early@[i].language@) ==> transitions::displaced_by_rust(
            shares,
        ) is None,
{
    lemma_thresholds();
    let entries = shares.early@;
    assert forall|j: int| 0 <= j < entries.len() implies transitions::is_contender(
        #[trigger] entries[j],
    ) == contends(entries[j]) by {}
    assert(transitions::is_dominant(entries, i));
    assert forall|j: int| transitions::is_dominant(entries, j) implies j == i by {
        assert(transitions::is_contender(entries[j]));
        assert(contends(entries[j]));
        if j != i {
            assert(entries[i].share.above(entries[j].share));
            assert(transitions::is_contender(entries[i]));
        }
    }
}

/// A language that is named as displaced has at least fifteen percent of the early
/// history, is neither Rust nor noise, and no other such language has more; and Rust
/// rose by at least ten points from little.
pub proof fn displaced_languages_were_dominant(
    nets: Seq<Map<Seq<char>, int>>,
    shares: SegmentShares,
    language: Seq<char>,
)
    requires
        transitions::are_segment_shares(nets, shares),
        transitions::displaced_by_rust(shares) == Some(language),
    ensures
        rose(shares),
        shares.rise.at_least(double::integer(10)),
        !commits::is_noise(language),
        !model::eq_ignore_ascii_case(language, "rust"@),
        exists|i: int|
            0 <= i < shares.early@.len() && (#[trigger] shares.early@[i]).language@ == language
                && contends(shares.early@[i]) && (forall|j: int|
                0 <= j < shares.early@.len() && contends(#[trigger] shares.early@[j])
                    ==> !shares.early@[j].share.above(shares.early@[i].share)),
{
    lemma_thresholds();
    let entries = shares.early@;
    let i = choose|i: int|
        transitions::is_dominant(entries, i) && !commits::is_noise(entries[i].language@);
    assert forall|j: int|
        0 <= j < entries.len() && contends(#[trigger] entries[j]) implies !entries[j].share.above(
        entries[i].share,
    ) by {
        assert(transitions::is_contender(entries[j]));
    }
    assert(contends(entries[i]));
}

/// A transition is strong if and only if Rust rose by at least twenty-five points,
/// from less than thirty-five percent to at least forty, a real language was
/// displaced, and at least five hundred lines of code are left.
pub proof fn strong_transitions_meet_every_threshold(
    nets: Seq<Map<Seq<char>, int>>,
    shares: SegmentShares,
    lines: int,
)
    requires
        transitions::are_segment_shares(nets, shares),
    ensures
        transitions::is_strong(shares, lines) <==> rose(shares) && shares.rise.at_least(
            double::integer(25),
        ) && shares.rust_after.at_least(double::integer(40)) && transitions::displaced_by_rust(
            shares,
        ) is Some && lines >= 500,
{
    lemma_thresholds();
}

/// A stored history is strong if and only if its swing is at least twenty-five
/// points, from at most thirty-five percent to at least forty, and it names the
/// language that it left.
pub proof fn stored_transitions_meet_every_threshold(
    magnitude: Double,
    before: Double,
    after: Double,
    named: bool,
)
    ensures
        transitions::stored_is_strong(Some(magnitude), Some(before), Some(after), named) <==> named
            && magnitude.at_least(double::integer(25)) && double::integer(35).at_least(before)
            && after.at_least(double::integer(40)),
{
    lemma_thresholds();
}

/// The samples of the early and of the late segment.
pub open spec fn is_early(commits: Seq<CommitRecord>, sample_points: int, k: int) -> bool {
    0 <= k && 5 * k < transitions::sampled_nets(commits, sample_points).len()
}

pub open spec fn is_late(commits: Seq<CommitRecord>, sample_points: int, k: int) -> bool {
    let n = transitions::sampled_nets(commits, sample_points).len();
    k < n && 5 * (n - 1 - k) < n
}

/// A history without Rust in its first fifth begins with none, and one with nothing
/// but Rust in its last fifth ends with all of it; so it is what it shows.
pub proof fn histories_show_their_ends(
    commits: Seq<CommitRecord>,
    sample_points: int,
    h: HistoryAnalysis,
)
    requires
        0 < commits.len() <= usize::MAX,
        0 <= sample_points < 0x1000_0000,
        transitions::is_analysis(commits, sample_points, h),
    ensures
        ({
            let nets = transitions::sampled_nets(commits, sample_points);
            &&& (forall|k: int|
                #[trigger] is_early(commits, sample_points, k) ==> is_none(nets[k], "Rust"@))
                ==> h.rust_pct_before == Some(Double { bits: 0 })
            &&& (forall|k: int|
                #[trigger] is_early(commits, sample_points, k) ==> is_all(nets[k], "Rust"@))
                ==> h.rust_pct_before == Some(double::integer(100))
            &&& (forall|k: int|
                #[trigger] is_late(commits, sample_points, k) ==> is_none(nets[k], "Rust"@))
                ==> h.rust_pct_after == Some(Double { bits: 0 })
            &&& (forall|k: int|
                #[trigger] is_late(commits, sample_points, k) ==> is_all(nets[k], "Rust"@))
                ==> h.rust_pct_after == Some(double::integer(100))
        }),
{
    let nets = transitions::sampled_nets(commits, sample_points);
    let n = nets.len() as int;
    transitions::samples_run_from_first_to_last(commits.len() as int, sample_points);
    let size = transitions::segment_size(n);
    segments_are_a_fifth(n);
    let early = nets.subrange(0, size);
    let late = nets.subrange(n - size, n);
    let shares = choose|shares: SegmentShares|
        transitions::are_segment_shares(nets, shares) && #[trigger] transitions::shows(
            commits,
            shares,
            h,
        );
    double::lemma_scales();
    double::lemma_integer(10);
    double::lemma_zero_is_round(double::TEN);
    double::lemma_wholes_are_round(100, 10);
    assert forall|k: int| 0 <= k < size implies #[trigger] early[k] == nets[k] && is_early(
        commits,
        sample_points,
        k,
    ) by {}
    assert forall|k: int| 0 <= k < size implies #[trigger] late[k] == nets[n - size + k] && is_late(
        commits,
        sample_points,
        n - size + k,
    ) by {}
    if forall|k: int|
        #[trigger] is_early(commits, sample_points, k) ==> is_none(nets[k], "Rust"@) {
        lemma_none(early, "Rust"@, size);
        averages_are_over_all_samples(early, "Rust"@);
    }
    if forall|k: int| #[trigger] is_early(commits, sample_points, k) ==> is_all(nets[k], "Rust"@) {
        lemma_all(early, "Rust"@, size);
        averages_are_over_all_samples(early, "Rust"@);
    }
    if forall|k: int| #[trigger] is_late(commits, sample_points, k) ==> is_none(nets[k], "Rust"@) {
        assert forall|k: int| 0 <= k < size implies is_none(#[trigger] late[k], "Rust"@) by {
            assert(is_late(commits, sample_points, n - size + k));
        }
        lemma_none(late, "Rust"@, size);
        averages_are_over_all_samples(late, "Rust"@);
    }
    if forall|k: int| #[trigger] is_late(commits, sample_points, k) ==> is_all(nets[k], "Rust"@) {
        assert forall|k: int| 0 <= k < size implies is_all(#[trigger] late[k], "Rust"@) by {
            assert(is_late(commits, sample_points, n - size + k));
        }
        lemma_all(late, "Rust"@, size);
        averages_are_over_all_samples(late, "Rust"@);
    }
}

proof fn lemma_none(nets: Seq<Map<Seq<char>, int>>, language: Seq<char>, n: int)
    requires
        0 <= n <= nets.len(),
        forall|k: int| 0 <= k < nets.len() ==> is_none(#[trigger] nets[k], language),
    ensures
        wholes(nets, language, n) == 0,
    decreases n,
{
    if n > 0 {
        lemma_none(nets, language, n - 1);
        assert(is_none(nets[n - 1], language));
    }
}

proof fn lemma_all(nets: Seq<Map<Seq<char>, int>>, language: Seq<char>, n: int)
    requires
        0 <= n <= nets.len(),
        forall|k: int| 0 <= k < nets.len() ==> is_all(#[trigger] nets[k], language),
    ensures
        wholes(nets, language, n) == n,
    decreases n,
{
    if n > 0 {
        lemma_all(nets, language, n - 1);
        assert(is_all(nets[n - 1], language));
    }
}

// --- Window ------------------------------------------------------------------

/// The rise to point `k` is at least five points, no rise is steeper, and none before
/// it is as steep.
pub open spec fn is_peak(points: Seq<SharePoint>, k: int) -> bool {
    &&& 1 <= k < points.len()
    &&& points[k].rise.at_least(double::integer(5))
    &&& forall|j: int| 1 <= j < points.len() ==> !(#[trigger] points[j]).rise.above(points[k].rise)
    &&& forall|j: int| 1 <= j < k ==> points[k].rise.above((#[trigger] points[j]).rise)
        || !points[j].rise.is_number()
}

proof fn lemma_earliest(points: Seq<SharePoint>, from: int, m: int)
    requires
        0 <= m <= points.len(),
    ensures
        ({
            let e = transitions::earliest(points, from, m);
            &&& e <= from
            &&& e == from || exists|i: int|
                0 <= i < m && (#[trigger] points[i]).idx == e && double::integer(25).above(
                    points[i].share,
                )
            &&& forall|i: int|
                0 <= i < m && (#[trigger] points[i]).idx <= from && double::integer(25).above(
                    points[i].share,
                ) ==> e <= points[i].idx
        }),
    decreases m,
{
    lemma_thresholds();
    if m > 0 {
        lemma_earliest(points, from, m - 1);
        let e = transitions::earliest(points, from, m);
        if e == points[m - 1].idx {
            assert(points[m - 1].idx == e);
        }
    }
}

proof fn lemma_latest(points: Seq<SharePoint>, to: int, m: int)
    requires
        0 <= m <= points.len(),
    ensures
        ({
            let e = transitions::latest(points, to, m);
            &&& e >= to
            &&& e == to || exists|i: int|
                0 <= i < m && (#[trigger] points[i]).idx == e && points[i].share.above(
                    double::integer(50),
                )
            &&& forall|i: int|
                0 <= i < m && (#[trigger] points[i]).idx >= to && points[i].share.above(
                    double::integer(50),
                ) ==> e >= points[i].idx
        }),
    decreases m,
{
    lemma_thresholds();
    if m > 0 {
        lemma_latest(points, to, m - 1);
        let e = transitions::latest(points, to, m);
        if e == points[m - 1].idx {
            assert(points[m - 1].idx == e);
        }
    }
}

/// The window of a transition runs without gaps over the steepest rise: it begins
/// there or at the first sample before it with less than a quarter of Rust, and ends
/// there or at the last sample behind it with more than half.
pub proof fn windows_span_the_steepest_rise(
    commits: Seq<Commit>,
    points: Seq<SharePoint>,
    k: int,
)
    requires
        commits.len() > 0,
        transitions::points_in_order(points, commits.len() as int),
        is_peak(points, k),
    ensures
        ({
            let window = transitions::window_of(commits, points);
            let (from, to) = (points[k - 1].idx as int, points[k].idx as int);
            let (first, last) = (window[0], window.last());
            &&& window.len() > 0
            &&& forall|i: int| 0 <= i < window.len() ==> #[trigger] window[i] == first + i
            &&& first <= from < to <= last
            &&& first == from || exists|i: int|
                0 <= i < points.len() && (#[trigger] points[i]).idx == first && double::integer(
                    25,
                ).above(points[i].share)
            &&& last == to || exists|i: int|
                0 <= i < points.len() && (#[trigger] points[i]).idx == last && points[i].share.above(
                    double::integer(50),
                )
            &&& forall|i: int|
                0 <= i < points.len() && (#[trigger] points[i]).idx <= from && double::integer(
                    25,
                ).above(points[i].share) ==> first <= points[i].idx
            &&& forall|i: int|
                0 <= i < points.len() && (#[trigger] points[i]).idx >= to && points[i].share.above(
                    double::integer(50),
                ) ==> points[i].idx <= last
        }),
{
    lemma_thresholds();
    double::lemma_integer(5);
    assert(transitions::is_steepest(points, k));
    transitions::lemma_steepest_unique(points, k);
    assert(transitions::peak(points) == Some(k));
    let m = points.len() as int;
    lemma_earliest(points, points[k - 1].idx as int, m);
    lemma_latest(points, points[k].idx as int, m);
    assert(points[k - 1].idx < points[k].idx);
}

/// A commit that adds Rust or removes another language.
pub open spec fn turns_over(changes: Seq<Change>) -> bool {
    exists|i: int|
        0 <= i < changes.len() && match git_history::language_of((#[trigger] changes[i]).path) {
            Some(language) => if language == "Rust"@ {
                changes[i].added > 0
            } else {
                changes[i].removed > 0
            },
            None => false,
        }
}

proof fn lemma_churn(changes: Seq<Change>)
    ensures
        transitions::churn_of(changes) > 0 <==> turns_over(changes),
    decreases changes.len(),
{
    if changes.len() > 0 {
        let rest = changes.drop_last();
        lemma_churn(rest);
        if turns_over(rest) {
            let i = choose|i: int|
                0 <= i < rest.len() && match git_history::language_of((#[trigger] rest[i]).path) {
                    Some(language) => if language == "Rust"@ {
                        rest[i].added > 0
                    } else {
                        rest[i].removed > 0
                    },
                    None => false,
                };
            assert(changes[i] == rest[i]);
        }
        if turns_over(changes) && !turns_over(rest) {
            let i = choose|i: int|
                0 <= i < changes.len() && match git_history::language_of(
                    (#[trigger] changes[i]).path,
                ) {
                    Some(language) => if language == "Rust"@ {
                        changes[i].added > 0
                    } else {
                        changes[i].removed > 0
                    },
                    None => false,
                };
            if i < rest.len() {
                assert(rest[i] == changes[i]);
            }
        }
    }
}

proof fn lemma_churning(commits: Seq<Commit>, upto: int, i: int)
    requires
        0 <= upto <= commits.len(),
    ensures
        transitions::churning(commits, upto).contains(i) <==> 0 <= i < upto && turns_over(
            commits[i].files,
        ),
    decreases upto,
{
    if upto > 0 {
        lemma_churning(commits, upto - 1, i);
        lemma_churn(commits[upto - 1].files);
        let before = transitions::churning(commits, upto - 1);
        let after = transitions::churning(commits, upto);
        if before.contains(i) {
            let k = choose|k: int| 0 <= k < before.len() && before[k] == i;
            assert(after[k] == i);
        }
        if transitions::churn_of(commits[upto - 1].files) > 0 {
            assert(after[before.len() as int] == upto - 1);
            if after.contains(i) && i != upto - 1 {
                let k = choose|k: int| 0 <= k < after.len() && after[k] == i;
                assert(before[k] == i);
            }
        }
    }
}

/// Where no rise is clear, the window holds the commits that add Rust or remove
/// another language, and no others.
pub proof fn without_a_rise_the_window_is_the_turnover(
    commits: Seq<Commit>,
    points: Seq<SharePoint>,
    i: int,
)
    requires
        commits.len() > 0,
        points.len() >= 2,
        forall|k: int|
            1 <= k < points.len() ==> !(#[trigger] points[k]).rise.at_least(double::integer(5)),
    ensures
        transitions::window_of(commits, points).contains(i) <==> 0 <= i < commits.len()
            && turns_over(commits[i].files),
{
    lemma_thresholds();
    assert(transitions::peak(points) is None);
    lemma_churning(commits, commits.len() as int, i);
}

// --- Samples -----------------------------------------------------------------

proof fn lemma_sampled(n: int, step: int, upto: int, i: int)
    requires
        0 <= upto <= n,
        step > 0,
    ensures
        transitions::sampled(n, step, upto).contains(i) <==> 0 <= i < upto
            && transitions::is_sampled(i, n, step),
    decreases upto,
{
    if upto > 0 {
        lemma_sampled(n, step, upto - 1, i);
        let before = transitions::sampled(n, step, upto - 1);
        if transitions::is_sampled(upto - 1, n, step) {
            let all = before.push(upto - 1);
            assert(all[before.len() as int] == upto - 1);
            if before.contains(i) {
                let k = choose|k: int| 0 <= k < before.len() && before[k] == i;
                assert(all[k] == i);
            }
            if all.contains(i) {
                let k = choose|k: int| 0 <= k < all.len() && all[k] == i;
                if k < before.len() {
                    assert(before[k] == i);
                }
            }
        }
    }
}

proof fn lemma_sample_count(n: int, step: int, upto: int)
    requires
        0 <= upto < n,
        step > 0,
    ensures
        transitions::sampled(n, step, upto).len() * step <= upto + step - 1,
    decreases upto,
{
    if upto > 0 {
        lemma_sample_count(n, step, upto - 1);
        let before = transitions::sampled(n, step, upto - 1).len() as int;
        if transitions::is_sampled(upto - 1, n, step) {
            // A multiple of the step lies at the end.
            let q = (upto - 1) / step;
            vstd::arithmetic::div_mod::lemma_fundamental_div_mod(upto - 1, step);
            assert(before <= q) by (nonlinear_arith)
                requires
                    before * step <= upto - 1 + step - 1,
                    upto - 1 == step * q,
                    step > 0,
            ;
            assert((before + 1) * step <= upto + step - 1) by (nonlinear_arith)
                requires
                    before <= q,
                    upto - 1 == step * q,
                    step > 0,
            ;
        }
    }
}

/// The samples are evenly spaced from the first commit on, with the last one: at most
/// as many as asked for, or a hundred where fewer are asked for.
pub proof fn samples_are_few_and_even(n: int, max_points: int, i: int)
    requires
        0 < n,
        0 <= max_points,
    ensures
        ({
            let most: int = if max_points < 100 {
                100
            } else {
                max_points
            };
            let samples = transitions::sample_indices(n, max_points);
            let step = transitions::sample_step(n, max_points);
            &&& samples.len() <= most
            &&& n <= most ==> step == 1
            &&& n > most ==> (step - 1) * (most - 1) < n <= step * (most - 1)
            &&& samples.contains(i) <==> 0 <= i < n && (i == n - 1 || i % step == 0)
        }),
{
    let most = transitions::sample_cap(max_points);
    let step = transitions::sample_step(n, max_points);
    if n > most {
        let d = most - 1;
        vstd::arithmetic::div_mod::lemma_fundamental_div_mod(n + most - 2, d);
        assert(step * d == d * step && (step - 1) * d == d * step - d) by (nonlinear_arith);
        assert(step >= 1) by (nonlinear_arith)
            requires
                d * step + (n + most - 2) % d == n + most - 2,
                (n + most - 2) % d < d,
                n > most,
                d == most - 1,
                d > 0,
        ;
    }
    lemma_sampled(n, step, n, i);
    lemma_sample_count(n, step, n - 1);
    let before = transitions::sampled(n, step, n - 1).len() as int;
    assert(transitions::sampled(n, step, n).len() == before + 1);
    if n > most {
        assert(before <= most - 1) by (nonlinear_arith)
            requires
                before * step <= n - 1 + step - 1,
                n - 1 <= step * (most - 1),
                step > 0,
        ;
    } else {
        assert(before <= n - 1) by (nonlinear_arith)
            requires
                before * step <= n - 1 + step - 1,
                step == 1,
        ;
    }
}

// --- What is shown -----------------------------------------------------------

/// An analysis counts every commit, and shows a swing exactly where Rust rose; a
/// strong transition always has one, and the language that it left.
pub proof fn swings_are_shown_where_rust_rose(
    commits: Seq<CommitRecord>,
    sample_points: int,
    h: HistoryAnalysis,
)
    requires
        0 < commits.len() <= u32::MAX,
        transitions::is_analysis(commits, sample_points, h),
    ensures
        h.total_commits == commits.len(),
        h.rust_pct_before is Some && h.rust_pct_after is Some,
        h.strong_transition ==> h.transition_magnitude is Some && h.from_language is Some,
        h.from_language is Some ==> h.transition_magnitude is Some,
        exists|shares: SegmentShares|
            #[trigger] transitions::are_segment_shares(
                transitions::sampled_nets(commits, sample_points),
                shares,
            ) && (h.transition_magnitude is Some <==> shares.rust_after.above(
                double::sum(shares.rust_before, double::integer(5)),
            )) && (h.transition_magnitude matches Some(m) ==> m == double::rounded_to(
                double::difference(shares.rust_after, shares.rust_before),
                double::integer(10).bits,
            )),
{
    lemma_thresholds();
    double::lemma_scales();
    let shares = choose|shares: SegmentShares|
        transitions::are_segment_shares(
            transitions::sampled_nets(commits, sample_points),
            shares,
        ) && #[trigger] transitions::shows(commits, shares, h);
    assert(transitions::are_segment_shares(
        transitions::sampled_nets(commits, sample_points),
        shares,
    ));
}

/// The metrics of an analysis are those of its window, and without commits there is
/// nothing to show.
pub proof fn metrics_are_those_of_the_window(
    commits: Seq<CommitRecord>,
    sample_points: int,
    h: HistoryAnalysis,
)
    requires
        transitions::is_analysis(commits, sample_points, h),
    ensures
        commits.len() == 0 ==> h.total_commits == 0 && !h.strong_transition
            && h.from_language is None && h.enrichment.lines_added is None,
        commits.len() > 0 ==> ({
            let window = transitions::window_in(
                commits,
                transitions::points_of(commits, sample_points),
            );
            &&& window.len() == 0 ==> h.enrichment.lines_added is None
            &&& 0 < window.len() <= u32::MAX ==> h.enrichment.commit_count == Some(
                window.len() as u32,
            )
        }),
{
}

// --- Turnover ----------------------------------------------------------------

/// A change of a Rust file counts for turnover by the lines that it adds, one of
/// another language by those that it removes, and any other for nothing.
pub proof fn turnover_is_rust_added_and_others_removed(changes: Seq<Change>, change: Change)
    ensures
        ({
            let before = transitions::churn_of(changes);
            let after = transitions::churn_of(changes.push(change));
            let language = git_history::language_of(change.path);
            &&& language == Some("Rust"@) ==> after == before + change.added
            &&& language is Some && language != Some("Rust"@) ==> after == before + change.removed
            &&& language is None ==> after == before
        }),
        transitions::churn_of(Seq::empty()) == 0,
{
    assert(changes.push(change).drop_last() =~= changes);
}

// --- Options -----------------------------------------------------------------

/// A standard analysis has three times the time of a step and four hundred samples;
/// a deep one fifteen times and twelve hundred. A budget that is too long is cut to
/// the longest time span.
pub proof fn analyses_have_their_budget(per_step: u128)
    ensures
        ({
            let standard = HistoryOptions::of(per_step, false);
            let deep = HistoryOptions::of(per_step, true);
            &&& standard.sample_points == 400 && deep.sample_points == 1200
            &&& !standard.macro_mode && deep.macro_mode
            &&& standard.per_step_timeout == per_step && deep.per_step_timeout == per_step
            &&& per_step <= u64::MAX ==> standard.budget() == 3 * per_step && deep.budget() == 15
                * per_step
            &&& standard.budget() <= 18_446_744_073_709_551_615_999_999_999
            &&& standard.budget() >= per_step || standard.budget()
                == 18_446_744_073_709_551_615_999_999_999
        }),
{
    let standard = HistoryOptions::of(per_step, false);
    let deep = HistoryOptions::of(per_step, true);
    assert(standard.budget_multiplier == 3 && deep.budget_multiplier == 15);
    assert(standard.per_step_timeout * standard.budget_multiplier == 3 * per_step)
        by (nonlinear_arith)
        requires
            standard.per_step_timeout == per_step,
            standard.budget_multiplier == 3,
    ;
    assert(deep.per_step_timeout * deep.budget_multiplier == 15 * per_step) by (nonlinear_arith)
        requires
            deep.per_step_timeout == per_step,
            deep.budget_multiplier == 15,
    ;
}

/// A sample holds what all commits up to its own made of the lines, that one with
/// them; the last one, what is left at the end of the history.
pub proof fn samples_hold_all_commits_so_far(
    commits: Seq<CommitRecord>,
    sample_points: int,
    k: int,
)
    requires
        0 < commits.len() <= usize::MAX,
        0 <= sample_points < 0x1000_0000,
        0 <= k < transitions::sampled_nets(commits, sample_points).len(),
        transitions::final_lines(commits) is Some,
    ensures
        ({
            let nets = transitions::sampled_nets(commits, sample_points);
            let at = transitions::sample_indices(commits.len() as int, sample_points)[k];
            &&& Some(nets[k]) == transitions::composition(
                git_history::commit_views(commits),
                at + 1,
            ) || transitions::composition(git_history::commit_views(commits), at + 1) is None
            &&& transitions::final_lines(commits) == Some(transitions::total_lines(nets.last()))
        }),
{
    transitions::samples_run_from_first_to_last(commits.len() as int, sample_points);
}

} // verus!
