//! Laws of texts: what is put together is taken apart again.

use crate::laws::log;
use crate::text_model as model;
use crate::text_model::CharClass;
use vstd::prelude::*;
use vstd::string::*;

verus! {

/// A text is taken apart at the first separator.
pub proof fn texts_are_taken_apart(head: Seq<char>, c: char, tail: Seq<char>)
    requires
        log::lacks(head, c),
    ensures
        model::split_once(head.push(c) + tail, seq![c]) == Some((head, tail)),
        model::before_first(head.push(c) + tail, c) == head,
{
    let s = head.push(c) + tail;
    let n = head.len() as int;
    assert(s.subrange(n, n + 1) =~= seq![c]);
    assert(model::matches_at(s, seq![c], n));
    assert forall|j: int| 0 <= j < n implies !model::matches_at(s, seq![c], j) by {
        if model::matches_at(s, seq![c], j) {
            assert(s.subrange(j, j + 1)[0] == s[j]);
            assert(s[j] == head[j]);
        }
    }
    model::lemma_find(s, seq![c], n);
    assert(s.take(n) =~= head);
    assert(s.skip(n + 1) =~= tail);
    log::lemma_one_piece(head, c);
    pieces_are_those_of_the_parts(head, c, tail, CharClass::Only(c));
    lemma_some_piece(tail, CharClass::Only(c));
    assert(seq![head][0] == head);
}

/// There is always a piece.
pub proof fn lemma_some_piece(s: Seq<char>, class: CharClass)
    ensures
        model::split(s, class).len() > 0,
    decreases s.len(),
{
    if s.len() > 0 {
        lemma_some_piece(s.drop_last(), class);
    }
}

/// The pieces of two texts with a separator between them are the pieces of the one
/// and then those of the other.
pub proof fn pieces_are_those_of_the_parts(
    head: Seq<char>,
    c: char,
    tail: Seq<char>,
    class: CharClass,
)
    requires
        class.has(c),
    ensures
        model::split(head.push(c) + tail, class) == model::split(head, class) + model::split(
            tail,
            class,
        ),
    decreases tail.len(),
{
    let s = head.push(c) + tail;
    let first = model::split(head, class);
    if tail.len() == 0 {
        assert(s =~= head.push(c));
        assert(s.drop_last() =~= head);
        assert(tail =~= Seq::empty());
        assert(first.push(Seq::empty()) =~= first + seq![Seq::<char>::empty()]);
    } else {
        let rest = tail.drop_last();
        pieces_are_those_of_the_parts(head, c, rest, class);
        lemma_some_piece(rest, class);
        assert(s.drop_last() =~= head.push(c) + rest);
        assert(s.last() == tail.last());
        let second = model::split(rest, class);
        if class.has(tail.last()) {
            assert((first + second).push(Seq::empty()) =~= first + second.push(Seq::empty()));
        } else {
            let longer = second.last().push(tail.last());
            assert((first + second).last() == second.last());
            assert((first + second).drop_last().push(longer) =~= first + second.drop_last().push(
                longer,
            ));
        }
    }
}

proof fn lemma_nonempty_parts(a: Seq<Seq<char>>, b: Seq<Seq<char>>)
    ensures
        model::nonempty(a + b) == model::nonempty(a) + model::nonempty(b),
    decreases b.len(),
{
    if b.len() == 0 {
        assert(a + b =~= a);
        assert(model::nonempty(a) + model::nonempty(b) =~= model::nonempty(a));
    } else {
        lemma_nonempty_parts(a, b.drop_last());
        assert((a + b).drop_last() =~= a + b.drop_last());
        assert((a + b).last() == b.last());
        assert(model::nonempty(a + b) =~= model::nonempty(a) + model::nonempty(b));
    }
}

/// The words of two texts with a space between them are the words of the one and
/// then those of the other.
pub proof fn words_are_those_of_the_parts(head: Seq<char>, tail: Seq<char>)
    ensures
        model::words(head.push(' ') + tail) == model::words(head) + model::words(tail),
{
    reveal(model::is_whitespace);
    pieces_are_those_of_the_parts(head, ' ', tail, CharClass::Whitespace);
    lemma_nonempty_parts(
        model::split(head, CharClass::Whitespace),
        model::split(tail, CharClass::Whitespace),
    );
}

/// A text of visible characters.
pub open spec fn is_word(s: Seq<char>) -> bool {
    s.len() > 0 && forall|i: int| 0 <= i < s.len() ==> !model::is_whitespace(#[trigger] s[i])
}

/// A text without white space is one word.
pub proof fn words_are_words(s: Seq<char>)
    requires
        is_word(s),
    ensures
        model::words(s) == seq![s],
        model::trim(s, CharClass::Whitespace) == s,
{
    lemma_one_word(s);
    assert(seq![s].drop_last() =~= Seq::empty());
    assert(model::nonempty(seq![s].drop_last()) =~= Seq::empty());
    assert(model::nonempty(seq![s]) =~= seq![s]);
    assert(!model::is_whitespace(s[0]));
    assert(!model::is_whitespace(s[s.len() - 1]));
}

proof fn lemma_one_word(s: Seq<char>)
    requires
        forall|i: int| 0 <= i < s.len() ==> !model::is_whitespace(#[trigger] s[i]),
    ensures
        model::split(s, CharClass::Whitespace) == seq![s],
    decreases s.len(),
{
    if s.len() == 0 {
        assert(s =~= Seq::empty());
    } else {
        let rest = s.drop_last();
        assert forall|i: int| 0 <= i < rest.len() implies !model::is_whitespace(
            #[trigger] rest[i],
        ) by {
            assert(!model::is_whitespace(s[i]));
        }
        lemma_one_word(rest);
        assert(!model::is_whitespace(s[s.len() - 1]));
        assert(rest.push(s.last()) =~= s);
        assert(seq![rest].drop_last().push(rest.push(s.last())) =~= seq![s]);
    }
}

/// Digits are visible.
pub proof fn digits_are_words(n: nat)
    ensures
        is_word(model::decimal(n)),
        log::lacks(model::decimal(n), '/'),
{
    reveal(model::is_whitespace);
    log::lemma_decimal(n);
    assert forall|i: int| 0 <= i < model::decimal(n).len() implies !model::is_whitespace(
        #[trigger] model::decimal(n)[i],
    ) && model::decimal(n)[i] != '/' by {
        assert(model::is_digit(model::decimal(n)[i]));
    }
}

/// The lines of two texts with a line feed between them are the lines of the one and
/// then those of the other.
pub proof fn lines_are_those_of_the_parts(head: Seq<char>, tail: Seq<char>)
    requires
        log::lacks(head, '\n'),
        head.len() > 0 ==> head.last() != '\r',
    ensures
        model::lines(head.push('\n') + tail) == seq![head] + model::lines(tail),
        head.len() > 0 ==> model::lines(head) == seq![head],
        model::lines(Seq::empty()).len() == 0,
{
    let class = CharClass::Only('\n');
    pieces_are_those_of_the_parts(head, '\n', tail, class);
    log::lemma_one_piece(head, '\n');
    lemma_some_piece(tail, class);
    let pieces = model::split(head.push('\n') + tail, class);
    let rest = model::split(tail, class);
    assert(pieces.last() == rest.last());
    assert(pieces[0] == head);
    assert(model::lines(head.push('\n') + tail) =~= seq![head] + model::lines(tail));
    assert(model::lines(head) =~= if head.len() > 0 {
        seq![head]
    } else {
        Seq::empty()
    });
    assert(model::split(Seq::<char>::empty(), class) =~= seq![Seq::<char>::empty()]);
}

/// Lower case is lower case again, and takes no notice of the case of letters.
pub proof fn case_is_taken_away(a: Seq<char>, b: Seq<char>)
    requires
        model::all_ascii(a),
        model::all_ascii(b),
        model::eq_ignore_ascii_case(a, b),
    ensures
        model::lowercase(a) == model::lowercase(b),
        model::lowercase(model::lowercase(a)) == model::lowercase(a),
{
    model::lemma_lowered_ascii(a);
    model::lemma_lowered_ascii(b);
    assert(model::ascii_lowercase(a) =~= model::ascii_lowercase(b));
}

/// What stands at the ends of a text is trimmed off, and nothing else.
pub proof fn ends_are_trimmed(a: Seq<char>, w: Seq<char>, b: Seq<char>, class: CharClass)
    requires
        forall|i: int| 0 <= i < a.len() ==> class.has(#[trigger] a[i]),
        forall|i: int| 0 <= i < b.len() ==> class.has(#[trigger] b[i]),
        w.len() > 0,
        !class.has(w[0]),
        !class.has(w.last()),
    ensures
        model::trim(a + w + b, class) == w,
    decreases a.len() + b.len(),
{
    if a.len() > 0 {
        let rest = a.drop_first();
        assert forall|i: int| 0 <= i < rest.len() implies class.has(#[trigger] rest[i]) by {
            assert(class.has(a[i + 1]));
        }
        ends_are_trimmed(rest, w, b, class);
        assert((a + w + b).drop_first() =~= rest + w + b);
        assert((a + w + b)[0] == a[0]);
    } else {
        let s = w + b;
        assert(a + w + b =~= s);
        assert(s[0] == w[0]);
        assert(model::trim_start(s, class) == s);
        lemma_end_is_trimmed(w, b, class);
    }
}

proof fn lemma_end_is_trimmed(w: Seq<char>, b: Seq<char>, class: CharClass)
    requires
        forall|i: int| 0 <= i < b.len() ==> class.has(#[trigger] b[i]),
        w.len() > 0,
        !class.has(w.last()),
    ensures
        model::trim_end(w + b, class) == w,
    decreases b.len(),
{
    if b.len() > 0 {
        let rest = b.drop_last();
        assert forall|i: int| 0 <= i < rest.len() implies class.has(#[trigger] rest[i]) by {
            assert(class.has(b[i]));
        }
        lemma_end_is_trimmed(w, rest, class);
        assert((w + b).drop_last() =~= w + rest);
        assert((w + b).last() == b[b.len() - 1]);
    } else {
        assert(w + b =~= w);
    }
}

/// Of two texts that differ, one comes before the other, and only one; a text comes
/// before what it begins.
pub proof fn texts_are_in_order(a: Seq<char>, b: Seq<char>)
    ensures
        a != b ==> model::precedes(a, b) != model::precedes(b, a),
        !model::precedes(a, a),
    decreases a.len(),
{
    if a.len() > 0 && b.len() > 0 {
        texts_are_in_order(a.drop_first(), b.drop_first());
        if a != b && a[0] == b[0] {
            if a.drop_first() == b.drop_first() {
                assert(a =~= seq![a[0]] + a.drop_first());
                assert(b =~= seq![b[0]] + b.drop_first());
            }
        }
    }
    if a.len() > 0 {
        texts_are_in_order(a.drop_first(), a.drop_first());
    }
    if a.len() == 0 && b.len() == 0 {
        assert(a =~= b);
    }
}

/// Numbers below zero are read back from a dash and their digits.
pub proof fn signed_numbers_are_read_back(n: nat)
    requires
        n <= 0x8000_0000_0000_0000,
    ensures
        model::parse_i64(seq!['-'] + model::decimal(n)) == Some(-(n as int)),
        n <= i64::MAX ==> model::parse_i64(model::decimal(n)) == Some(n as int),
        n <= i64::MAX ==> model::parse_i64(seq!['+'] + model::decimal(n)) == Some(n as int),
{
    log::lemma_decimal(n);
    let digits = model::decimal(n);
    assert(model::is_digit(digits[0]));
    assert((seq!['-'] + digits).drop_first() =~= digits);
    assert((seq!['+'] + digits).drop_first() =~= digits);
}

/// A carriage return before a line feed belongs to neither line.
pub proof fn carriage_returns_end_lines_too(head: Seq<char>, tail: Seq<char>)
    requires
        log::lacks(head, '\n'),
    ensures
        model::lines(head.push('\r').push('\n') + tail) == seq![head] + model::lines(tail),
{
    let class = CharClass::Only('\n');
    let ended = head.push('\r');
    assert forall|i: int| 0 <= i < ended.len() implies #[trigger] ended[i] != '\n' by {
        if i < head.len() {
            assert(head[i] != '\n');
        }
    }
    pieces_are_those_of_the_parts(ended, '\n', tail, class);
    log::lemma_one_piece(ended, '\n');
    lemma_some_piece(tail, class);
    let pieces = model::split(ended.push('\n') + tail, class);
    let rest = model::split(tail, class);
    assert(pieces.last() == rest.last());
    assert(pieces[0] == ended);
    assert(ended.drop_last() =~= head);
    assert(model::lines(ended.push('\n') + tail) =~= seq![head] + model::lines(tail));
}

} // verus!
