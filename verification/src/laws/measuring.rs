//! Laws of the measurement of unsafe functions.

use crate::detect::git_history::RunOutcome;
use crate::double;
use crate::double::Double;
use crate::geiger;
use crate::geiger::JsonModel;
use crate::laws::log;
use crate::laws::numbers;
use crate::laws::texts;
use crate::rounding;
use crate::text_model as model;
use vstd::prelude::*;
use vstd::string::*;

verus! {

// --- JSON --------------------------------------------------------------------

/// One more value in a list adds the functions that it reports.
pub proof fn every_item_counts(items: Seq<JsonModel>, value: JsonModel)
    ensures
        ({
            let before = geiger::functions_in(JsonModel::Array(items));
            let own = geiger::functions_in(value);
            let after = geiger::functions_in(JsonModel::Array(items.push(value)));
            after.0 == before.0 + own.0 && after.1 == before.1 + own.1
        }),
{
    assert(items.push(value).drop_last() =~= items);
}

proof fn lemma_member(
    members: Seq<(Seq<char>, JsonModel)>,
    added: (Seq<char>, JsonModel),
    key: Seq<char>,
    k: int,
)
    requires
        added.0 != key,
        0 <= k <= members.len(),
    ensures
        geiger::member(members.push(added), key, k) == geiger::member(members, key, k),
    decreases members.len() - k,
{
    if k < members.len() {
        lemma_member(members, added, key, k + 1);
        assert(members.push(added)[k] == members[k]);
    } else {
        assert(members.push(added)[k] == added);
        assert(geiger::member(members.push(added), key, k + 1) is None);
    }
}

/// One more member of an object adds the functions that it reports, however deep
/// they stand.
pub proof fn every_member_counts(
    members: Seq<(Seq<char>, JsonModel)>,
    key: Seq<char>,
    value: JsonModel,
)
    requires
        key != "functions"@,
    ensures
        ({
            let before = geiger::functions_in(JsonModel::Object(members));
            let own = geiger::functions_in(value);
            let after = geiger::functions_in(JsonModel::Object(members.push((key, value))));
            after.0 == before.0 + own.0 && after.1 == before.1 + own.1
        }),
{
    assert(members.push((key, value)).drop_last() =~= members);
    lemma_member(members, (key, value), "functions"@, 0);
}

/// The counts of an object's functions.
pub open spec fn counted(safe: u64, unsafe_functions: u64, name: Seq<char>) -> JsonModel {
    JsonModel::Object(
        seq![
            (
                "functions"@,
                JsonModel::Object(
                    seq![
                        ("safe"@, JsonModel::Number(Some(safe))),
                        (name, JsonModel::Number(Some(unsafe_functions))),
                    ],
                ),
            ),
        ],
    )
}

/// The counts that an object reports are read back, under either name for the
/// unsafe ones.
pub proof fn counts_are_read_back(safe: u64, unsafe_functions: u64)
    ensures
        geiger::functions_in(counted(safe, unsafe_functions, "unsafe"@)) == (
            safe as nat,
            unsafe_functions as nat,
        ),
        geiger::functions_in(counted(safe, unsafe_functions, "unsafe_"@)) == (
            safe as nat,
            unsafe_functions as nat,
        ),
{
    reveal_strlit("functions");
    reveal_strlit("safe");
    reveal_strlit("unsafe");
    reveal_strlit("unsafe_");
    lemma_counted(safe, unsafe_functions, "unsafe"@);
    lemma_counted(safe, unsafe_functions, "unsafe_"@);
}

proof fn lemma_counted(safe: u64, unsafe_functions: u64, name: Seq<char>)
    requires
        name == "unsafe"@ || name == "unsafe_"@,
        "functions"@.len() == 9,
        "safe"@.len() == 4,
        "unsafe"@.len() == 6,
        "unsafe_"@.len() == 7,
    ensures
        geiger::functions_in(counted(safe, unsafe_functions, name)) == (
            safe as nat,
            unsafe_functions as nat,
        ),
{
    let one = JsonModel::Number(Some(safe));
    let other = JsonModel::Number(Some(unsafe_functions));
    let inner = seq![("safe"@, one), (name, other)];
    reveal_with_fuel(geiger::member, 4);
    reveal_with_fuel(geiger::functions_in_members, 3);
    reveal_with_fuel(geiger::functions_in, 4);
    assert(geiger::member(inner, "safe"@, 0) == Some(one));
    assert(geiger::member(inner, name, 0) == Some(other));
    assert(geiger::member(inner, "functions"@, 0) is None);
    if name == "unsafe"@ {
        assert(geiger::member(inner, "unsafe_"@, 0) is None);
    }
    assert(inner.drop_last() =~= seq![("safe"@, one)]);
    assert(inner.drop_last().drop_last() =~= Seq::empty());
    assert(geiger::functions_in_members(inner.drop_last().drop_last()) == (0nat, 0nat));
    assert(geiger::functions_in(one) == (0nat, 0nat));
    assert(geiger::functions_in(other) == (0nat, 0nat));
    assert(geiger::functions_in_members(inner) == (0nat, 0nat));
    assert(geiger::functions_in(JsonModel::Object(inner)) == (0nat, 0nat));
    let outer = seq![("functions"@, JsonModel::Object(inner))];
    assert(geiger::member(outer, "functions"@, 0) == Some(JsonModel::Object(inner)));
    assert(geiger::own_functions(outer) == (safe as nat, unsafe_functions as nat));
    assert(outer.drop_last() =~= Seq::empty());
    assert(geiger::functions_in_members(outer.drop_last()) == (0nat, 0nat));
    assert(outer.last().1 == JsonModel::Object(inner));
    assert(geiger::functions_in_members(outer) == (0nat, 0nat));
    assert(counted(safe, unsafe_functions, name) == JsonModel::Object(outer));
}

// --- Text tree ---------------------------------------------------------------

/// A metric: unsafe functions and all functions, with a slash between them.
pub open spec fn metric(part: nat, whole: nat) -> Seq<char> {
    model::decimal(part).push('/') + model::decimal(whole)
}

proof fn lemma_metric(part: u64, whole: u64)
    ensures
        texts::is_word(metric(part as nat, whole as nat)),
        geiger::is_metric_text(metric(part as nat, whole as nat)),
        geiger::metric_counts(metric(part as nat, whole as nat)) == Some(
            (part as nat, whole as nat),
        ),
{
    reveal(model::is_whitespace);
    let (a, b) = (model::decimal(part as nat), model::decimal(whole as nat));
    let s = metric(part as nat, whole as nat);
    log::lemma_decimal(part as nat);
    log::lemma_decimal(whole as nat);
    texts::digits_are_words(part as nat);
    texts::digits_are_words(whole as nat);
    texts::texts_are_taken_apart(a, '/', b);
    reveal_strlit("/");
    assert("/"@ =~= seq!['/']);
    assert(model::is_digit(a[0]));
    assert(model::is_digit(b[0]));
    assert forall|i: int| 0 <= i < s.len() implies !model::is_whitespace(#[trigger] s[i]) by {
        if i < a.len() {
            assert(s[i] == a[i]);
        } else if i > a.len() {
            assert(s[i] == b[i - a.len() - 1]);
        }
    }
}

proof fn lemma_first_metric(words: Seq<Seq<char>>, k: int, at: int)
    requires
        0 <= k <= at < words.len(),
        forall|i: int| k <= i < at ==> !geiger::is_metric_text(#[trigger] words[i]),
        geiger::is_metric_text(words[at]),
    ensures
        geiger::first_metric(words, k) == Some(words[at]),
    decreases at - k,
{
    if k < at {
        lemma_first_metric(words, k + 1, at);
    }
}

/// No piece of a text without a slash has one.
proof fn lemma_words_lack(s: Seq<char>)
    requires
        log::lacks(s, '/'),
    ensures
        forall|i: int| 0 <= i < model::words(s).len() ==> log::lacks(#[trigger] model::words(s)[i], '/'),
{
    lemma_pieces_lack(s);
    lemma_nonempty_lack(model::split(s, model::CharClass::Whitespace));
}

proof fn lemma_pieces_lack(s: Seq<char>)
    requires
        log::lacks(s, '/'),
    ensures
        forall|i: int|
            0 <= i < model::split(s, model::CharClass::Whitespace).len() ==> log::lacks(
                #[trigger] model::split(s, model::CharClass::Whitespace)[i],
                '/',
            ),
    decreases s.len(),
{
    if s.len() > 0 {
        let rest = s.drop_last();
        assert forall|i: int| 0 <= i < rest.len() implies #[trigger] rest[i] != '/' by {
            assert(s[i] != '/');
        }
        lemma_pieces_lack(rest);
        texts::lemma_some_piece(rest, model::CharClass::Whitespace);
        let before = model::split(rest, model::CharClass::Whitespace);
        assert(log::lacks(before[before.len() - 1], '/'));
        assert(s[s.len() - 1] != '/');
    }
}

proof fn lemma_nonempty_lack(pieces: Seq<Seq<char>>)
    requires
        forall|i: int| 0 <= i < pieces.len() ==> log::lacks(#[trigger] pieces[i], '/'),
    ensures
        forall|i: int|
            0 <= i < model::nonempty(pieces).len() ==> log::lacks(
                #[trigger] model::nonempty(pieces)[i],
                '/',
            ),
    decreases pieces.len(),
{
    if pieces.len() > 0 {
        assert forall|i: int| 0 <= i < pieces.drop_last().len() implies log::lacks(
            #[trigger] pieces.drop_last()[i],
            '/',
        ) by {
            assert(log::lacks(pieces[i], '/'));
        }
        lemma_nonempty_lack(pieces.drop_last());
        assert(log::lacks(pieces[pieces.len() - 1], '/'));
        let before = model::nonempty(pieces.drop_last());
        assert forall|i: int| 0 <= i < model::nonempty(pieces).len() implies log::lacks(
            #[trigger] model::nonempty(pieces)[i],
            '/',
        ) by {
            if i < before.len() {
                assert(log::lacks(before[i], '/'));
            }
        }
    }
}

/// A line of the tree counts its first metric, whatever stands before it without a
/// slash and whatever follows.
pub proof fn lines_count_their_first_metric(
    head: Seq<char>,
    part: u64,
    whole: u64,
    tail: Seq<char>,
)
    requires
        log::lacks(head, '/'),
    ensures
        geiger::line_counts(
            (head.push(' ') + metric(part as nat, whole as nat)).push(' ') + tail,
        ) == (part as nat, whole as nat),
        geiger::line_counts(metric(part as nat, whole as nat)) == (part as nat, whole as nat),
        geiger::line_counts(head) == (0nat, 0nat),
{
    let m = metric(part as nat, whole as nat);
    let s = head.push(' ') + m;
    lemma_metric(part, whole);
    texts::words_are_words(m);
    texts::words_are_those_of_the_parts(head, m);
    texts::words_are_those_of_the_parts(s, tail);
    lemma_words_lack(head);
    let before = model::words(head);
    reveal_strlit("/");
    assert("/"@ =~= seq!['/']);
    assert forall|i: int| 0 <= i < before.len() implies !geiger::is_metric_text(
        #[trigger] before[i],
    ) by {
        assert(log::lacks(before[i], '/'));
        model::lemma_lacks(before[i], "/"@, 0);
    }
    let all = model::words(s.push(' ') + tail);
    let at = before.len() as int;
    assert(all[at] == m);
    assert forall|i: int| 0 <= i < at implies !geiger::is_metric_text(#[trigger] all[i]) by {
        assert(all[i] == before[i]);
    }
    lemma_first_metric(all, 0, at);
    assert(seq![m][0] == m);
    lemma_first_metric(seq![m], 0, 0);
    lemma_no_metric(before, 0);
}

proof fn lemma_no_metric(words: Seq<Seq<char>>, k: int)
    requires
        0 <= k <= words.len(),
        forall|i: int| 0 <= i < words.len() ==> !geiger::is_metric_text(#[trigger] words[i]),
    ensures
        geiger::first_metric(words, k) is None,
    decreases words.len() - k,
{
    if k < words.len() {
        lemma_no_metric(words, k + 1);
    }
}

/// Every line of a tree counts.
pub proof fn every_line_counts(lines: Seq<Seq<char>>, line: Seq<char>)
    ensures
        ({
            let before = geiger::tree_counts(lines);
            let own = geiger::line_counts(line);
            let after = geiger::tree_counts(lines.push(line));
            after.0 == before.0 + own.0 && after.1 == before.1 + own.1
        }),
        geiger::tree_counts(Seq::empty()) == (0nat, 0nat),
{
    assert(lines.push(line).drop_last() =~= lines);
}

/// A tree gives a share where it counts functions and no more unsafe ones than
/// there are: the unsafe ones of all that it counts.
pub proof fn trees_give_shares(stdout: Seq<char>)
    ensures
        ({
            let counts = geiger::tree_counts(model::lines(stdout));
            let share = geiger::share_in_text(stdout);
            &&& 0 < counts.1 <= u64::MAX && counts.0 <= counts.1 ==> share == Some(
                (counts.0, counts.1),
            )
            &&& counts.1 == 0 || counts.0 > counts.1 ==> share is None
        }),
{
}

/// A report that gives a share as JSON gives that one; any other is read as a tree.
/// A measurement that ran to its end is read whether or not it succeeded, and one
/// that did not gives nothing.
pub proof fn reports_are_read_as_json_first(stdout: Seq<char>, success: bool)
    ensures
        ({
            let run = RunOutcome::Finished { success };
            &&& geiger::share_in_json(stdout) is Some ==> geiger::share_of_run(run, stdout)
                == geiger::share_in_json(stdout)
            &&& geiger::share_in_json(stdout) is None ==> geiger::share_of_run(run, stdout)
                == geiger::share_in_text(stdout)
            &&& geiger::share_of_run(RunOutcome::NotRun, stdout) is None
            &&& geiger::share_of_run(RunOutcome::TimedOut, stdout) is None
        }),
{
}

// --- Shares ------------------------------------------------------------------

/// The share is that of the unsafe functions in all functions, safe and unsafe, to
/// the nearest hundredth of a percent but for a thousandth of that.
pub proof fn shares_are_of_all_functions(safe: u64, unsafe_functions: u64)
    requires
        0 < safe + unsafe_functions <= u64::MAX,
    ensures
        ({
            let whole = safe + unsafe_functions;
            let one = rounding::unit();
            let share = geiger::percent_of(
                geiger::share_of((safe as nat, unsafe_functions as nat)),
            );
            &&& share is Some
            &&& -(1002 * one * whole) <= 200_000 * (share->0.count() * whole - 100
                * unsafe_functions * one) <= 1002 * one * whole
        }),
        geiger::percent_of(geiger::share_of((0, 0))) is None,
{
    let whole = safe + unsafe_functions;
    let part = unsafe_functions as int;
    let one = rounding::unit();
    let p = double::percent(part, whole);
    double::lemma_scales();
    double::lemma_units_of_one();
    numbers::percents_are_accurate(part, whole);
    double::percents_are_bounded(part, whole);
    double::lemma_integer(100);
    double::lemma_integer_range(part);
    double::lemma_integer_range(whole);
    let q = double::quotient(double::integer(part), double::integer(whole));
    assert(double::integer(part).at_least(double::integer(part)));
    double::quotients_keep_order(
        double::integer(part),
        double::integer(part),
        double::integer(whole),
    );
    double::products_keep_order(q, q, Double { bits: double::HUNDRED });
    assert(!p.is_negative());
    rounding::lemma_units_grow(p.magnitude(), double::integer(100).magnitude());
    numbers::rounding_stays_near(p, 100);
    let x = double::rounded_to(p, double::HUNDRED).count();
    let c = p.count();
    lemma_together(x, c, part, whole, one);
}

proof fn lemma_together(x: int, c: int, part: int, whole: int, one: int)
    requires
        0 <= part <= whole,
        0 < whole,
        0 < one,
        -1001 * one <= 200_000 * (x - c) <= 1001 * one,
        numbers::is_near(c, 100 * part * one, whole, 8),
    ensures
        -(1002 * one * whole) <= 200_000 * (x * whole - 100 * part * one) <= 1002 * one * whole,
{
    let n = 100 * part * one;
    let dense: int = rounding::DENSE as int;
    numbers::lemma_scaled(200_000 * (x - c), 1001 * one, whole);
    numbers::lemma_scaled(-1001 * one, 200_000 * (x - c), whole);
    assert((200_000 * (x - c)) * whole == 200_000 * (x * whole) - 200_000 * (c * whole))
        by (nonlinear_arith);
    assert(-1001 * one * whole == -(1001 * one * whole)) by (nonlinear_arith);
    assert(n <= 100 * (one * whole)) by (nonlinear_arith)
        requires
            n == 100 * part * one,
            part <= whole,
            one > 0,
    ;
    assert(1001 * one * whole == 1001 * (one * whole) && 1002 * one * whole == 1002 * (one
        * whole)) by (nonlinear_arith);
    assert((dense - 8) * n == dense * n - 8 * n) by (nonlinear_arith);
    assert((dense + 8) * n == dense * n + 8 * n) by (nonlinear_arith);
    let e = c * whole - n;
    assert((c * whole) * dense == dense * n + dense * e) by (nonlinear_arith)
        requires
            e == c * whole - n,
    ;
    assert(-8 * n <= dense * e <= 8 * n);
    assert(one * whole > 0) by (nonlinear_arith)
        requires
            one > 0,
            whole > 0,
    ;
    assert(200_000 * e <= one * whole && 200_000 * e >= -(one * whole));
}

/// There is no part of nothing, and a part of anything else is its share.
pub proof fn nothing_has_no_parts(safe: u64, unsafe_functions: u64)
    requires
        safe + unsafe_functions <= u64::MAX,
    ensures
        geiger::ratio_of(unsafe_functions as nat, (safe + unsafe_functions) as nat)
            == geiger::percent_of(geiger::share_of((safe as nat, unsafe_functions as nat))),
        geiger::ratio_of(unsafe_functions as nat, 0) is None,
{
}

} // verus!
