//! Operations on text, each proved to compute its meaning in
//! [`crate::text_model`]. Positions count characters, not bytes.

use crate::text_model as model;
use crate::text_model::CharClass;
use vstd::prelude::*;
use vstd::string::*;

verus! {

// --- The standard library ----------------------------------------------------

/// `String::push` appends one character.
pub assume_specification[ String::push ](s: &mut String, c: char)
    ensures
        final(s)@ == old(s)@.push(c),
;

/// `str::to_lowercase` maps a text by Unicode's rules. A text of ASCII alone has
/// its letters put in lower case; of another text the result, which rests on the
/// text alone, goes by the name `unicode_lowercase`, and nothing more is said.
pub assume_specification[ str::to_lowercase ](s: &str) -> (r: String)
    ensures
        r@ == model::lowercase(s@),
        model::all_ascii(s@) ==> r@ == model::ascii_lowercase(s@),
        !model::all_ascii(s@) ==> r@ == model::unicode_lowercase(s@),
;

/// `char::is_whitespace` answers by a Unicode property of the character. In ASCII
/// it is tab to carriage return, and space; of another character the answer goes
/// by the name `unicode_whitespace`, and nothing more is said.
pub assume_specification[ char::is_whitespace ](c: char) -> (r: bool)
    ensures
        r == model::is_whitespace(c),
        model::is_ascii(c) ==> r == model::is_ascii_space(c),
        !model::is_ascii(c) ==> r == model::unicode_whitespace(c),
;

/// `char::is_alphanumeric` answers by Unicode properties of the character. In
/// ASCII it is the letters and digits; of another character the answer goes by
/// the name `unicode_alphanumeric`, and nothing more is said.
pub assume_specification[ char::is_alphanumeric ](c: char) -> (r: bool)
    ensures
        r == model::is_alphanumeric(c),
        model::is_ascii(c) ==> r == model::is_ascii_alphanumeric(c),
        !model::is_ascii(c) ==> r == model::unicode_alphanumeric(c),
;

// --- Characters --------------------------------------------------------------

/// Whether a character belongs to a class.
pub fn in_class(class: CharClass, c: char) -> (r: bool)
    ensures
        r == class.has(c),
{
    match class {
        CharClass::Whitespace => c.is_whitespace(),
        CharClass::NameLead => c.is_whitespace() || c == '`' || c == '"' || c == '\'' || c == ':'
            || c == '-',
        CharClass::NotAlphanumeric => !c.is_alphanumeric(),
        CharClass::NotAlphanumericOrDash => !c.is_alphanumeric() && c != '-',
        CharClass::Only(d) => c == d,
    }
}

/// The characters of a text.
pub fn to_chars(s: &str) -> (r: Vec<char>)
    ensures
        r@ == s@,
{
    let mut out: Vec<char> = Vec::new();
    for c in it: s.chars()
        invariant
            it.seq() == s@,
            out@ == s@.take(it.index() as int),
    {
        out.push(c);
    }
    out
}

/// The text that the characters from `from` up to `to` make.
pub fn from_chars(chars: &Vec<char>, from: usize, to: usize) -> (r: String)
    requires
        from <= to <= chars@.len(),
    ensures
        r@ == chars@.subrange(from as int, to as int),
{
    let mut out = String::new();
    let mut i: usize = from;
    while i < to
        invariant
            from <= i <= to <= chars@.len(),
            out@ == chars@.subrange(from as int, i as int),
        decreases to - i,
    {
        out.push(chars[i]);
        i += 1;
    }
    out
}

/// The text from position `from` on.
pub fn suffix_from<'a>(s: &'a str, from: usize) -> (r: &'a str)
    requires
        from <= s@.len(),
    ensures
        r@ == s@.skip(from as int),
{
    let n: usize = s.unicode_len();
    s.substring_char(from, n)
}

/// The text up to position `to`.
pub fn prefix_to<'a>(s: &'a str, to: usize) -> (r: &'a str)
    requires
        to <= s@.len(),
    ensures
        r@ == s@.take(to as int),
{
    s.substring_char(0, to)
}

/// The number of bytes of a text.
pub fn byte_len(s: &str) -> (r: usize)
    ensures
        r == model::utf8_len(s@),
{
    s.as_bytes().len()
}

// --- Comparing ---------------------------------------------------------------

fn same_chars(a: &Vec<char>, b: &Vec<char>) -> (r: bool)
    ensures
        r == (a@ == b@),
{
    if a.len() != b.len() {
        return false;
    }
    let mut i: usize = 0;
    while i < a.len()
        invariant
            a@.len() == b@.len(),
            i <= a@.len(),
            forall|j: int| 0 <= j < i ==> a@[j] == b@[j],
        decreases a@.len() - i,
    {
        if a[i] != b[i] {
            return false;
        }
        i += 1;
    }
    assert(a@ =~= b@);
    true
}

pub fn equal(a: &str, b: &str) -> (r: bool)
    ensures
        r == (a@ == b@),
{
    same_chars(&to_chars(a), &to_chars(b))
}

fn lower_ascii(c: char) -> (r: char)
    ensures
        r == model::ascii_lower(c),
{
    if 'A' <= c && c <= 'Z' {
        ((c as u32 as u8) + 32) as char
    } else {
        c
    }
}

pub fn eq_ignore_ascii_case(a: &str, b: &str) -> (r: bool)
    ensures
        r == model::eq_ignore_ascii_case(a@, b@),
{
    let x = to_chars(a);
    let y = to_chars(b);
    if x.len() != y.len() {
        return false;
    }
    let mut i: usize = 0;
    while i < x.len()
        invariant
            x@ == a@,
            y@ == b@,
            x@.len() == y@.len(),
            i <= x@.len(),
            forall|j: int|
                0 <= j < i ==> model::ascii_lower(#[trigger] a@[j]) == model::ascii_lower(b@[j]),
        decreases x@.len() - i,
    {
        if lower_ascii(x[i]) != lower_ascii(y[i]) {
            assert(model::ascii_lower(a@[i as int]) != model::ascii_lower(b@[i as int]));
            return false;
        }
        i += 1;
    }
    true
}

/// Whether `a` comes before `b` in the order of code points.
pub fn precedes(a: &str, b: &str) -> (r: bool)
    ensures
        r == model::precedes(a@, b@),
{
    let x = to_chars(a);
    let y = to_chars(b);
    let mut i: usize = 0;
    assert(a@.skip(0) =~= a@);
    assert(b@.skip(0) =~= b@);
    while i < x.len() && i < y.len()
        invariant
            x@ == a@,
            y@ == b@,
            i <= x@.len(),
            i <= y@.len(),
            model::precedes(a@, b@) == model::precedes(a@.skip(i as int), b@.skip(i as int)),
        decreases x@.len() - i,
    {
        assert(a@.skip(i as int).drop_first() =~= a@.skip(i + 1));
        assert(b@.skip(i as int).drop_first() =~= b@.skip(i + 1));
        if x[i] != y[i] {
            return x[i] < y[i];
        }
        i += 1;
    }
    i < y.len()
}

// --- Searching ---------------------------------------------------------------

fn chars_match_at(s: &Vec<char>, p: &Vec<char>, i: usize) -> (r: bool)
    requires
        i + p@.len() <= s@.len(),
    ensures
        r == model::matches_at(s@, p@, i as int),
{
    let total: usize = s.len();
    let mut k: usize = 0;
    while k < p.len()
        invariant
            total == s@.len(),
            i + p@.len() <= total,
            k <= p@.len(),
            forall|j: int| 0 <= j < k ==> s@[i + j] == p@[j],
        decreases p@.len() - k,
    {
        if s[i + k] != p[k] {
            assert(s@.subrange(i as int, i + p@.len())[k as int] != p@[k as int]);
            return false;
        }
        k += 1;
    }
    assert(s@.subrange(i as int, i + p@.len()) =~= p@);
    true
}

/// The first position of `p` in `s`.
pub fn find(s: &str, p: &str) -> (r: Option<usize>)
    ensures
        match r {
            Some(i) => model::find(s@, p@) == Some(i as int) && i + p@.len() <= s@.len(),
            None => model::find(s@, p@) is None,
        },
{
    let text = to_chars(s);
    let pattern = to_chars(p);
    if pattern.len() > text.len() {
        return None;
    }
    let last: usize = text.len() - pattern.len();
    let mut i: usize = 0;
    while i <= last
        invariant
            text@ == s@,
            pattern@ == p@,
            last + p@.len() == s@.len(),
            i <= last + 1,
            forall|j: int| 0 <= j < i ==> !model::matches_at(s@, p@, j),
        decreases last + 1 - i,
    {
        if chars_match_at(&text, &pattern, i) {
            proof {
                model::lemma_find(s@, p@, i as int);
            }
            return Some(i);
        }
        if i == last {
            return None;
        }
        i += 1;
    }
    None
}

pub fn contains(s: &str, p: &str) -> (r: bool)
    ensures
        r == model::contains(s@, p@),
{
    proof {
        model::lemma_found(s@, p@);
    }
    find(s, p).is_some()
}

pub fn starts_with(s: &str, p: &str) -> (r: bool)
    ensures
        r == model::starts_with(s@, p@),
{
    let text = to_chars(s);
    let pattern = to_chars(p);
    if pattern.len() > text.len() {
        return false;
    }
    assert(s@.subrange(0, p@.len() as int) =~= s@.take(p@.len() as int));
    chars_match_at(&text, &pattern, 0)
}

pub fn ends_with(s: &str, p: &str) -> (r: bool)
    ensures
        r == model::ends_with(s@, p@),
{
    let text = to_chars(s);
    let pattern = to_chars(p);
    if pattern.len() > text.len() {
        return false;
    }
    let from: usize = text.len() - pattern.len();
    assert(s@.subrange(from as int, from + p@.len()) =~= s@.skip(from as int));
    chars_match_at(&text, &pattern, from)
}

/// Whether some phrase of a table stands in `s`.
pub fn any_phrase(s: &str, phrases: &[&str]) -> (r: bool)
    ensures
        r == model::any_phrase(s@, phrases@),
{
    let mut k: usize = 0;
    while k < phrases.len()
        invariant
            k <= phrases@.len(),
            forall|j: int| 0 <= j < k ==> !model::contains(s@, (#[trigger] phrases@[j])@),
        decreases phrases@.len() - k,
    {
        if contains(s, phrases[k]) {
            return true;
        }
        k += 1;
    }
    false
}

/// Whether `s` is one of the words of a table.
pub fn any_equal(s: &str, words: &[&str]) -> (r: bool)
    ensures
        r == model::any_equal(s@, words@),
{
    let mut k: usize = 0;
    while k < words.len()
        invariant
            k <= words@.len(),
            forall|j: int| 0 <= j < k ==> s@ != (#[trigger] words@[j])@,
        decreases words@.len() - k,
    {
        if equal(s, words[k]) {
            return true;
        }
        k += 1;
    }
    false
}

/// Whether `s` ends in some suffix of a table.
pub fn any_suffix(s: &str, suffixes: &[&str]) -> (r: bool)
    ensures
        r == model::any_suffix(s@, suffixes@),
{
    let mut k: usize = 0;
    while k < suffixes.len()
        invariant
            k <= suffixes@.len(),
            forall|j: int| 0 <= j < k ==> !model::ends_with(s@, (#[trigger] suffixes@[j])@),
        decreases suffixes@.len() - k,
    {
        if ends_with(s, suffixes[k]) {
            return true;
        }
        k += 1;
    }
    false
}

/// The part of `s` before the first `p` and the part behind it.
pub fn split_once<'a>(s: &'a str, p: &str) -> (r: Option<(&'a str, &'a str)>)
    ensures
        match r {
            Some(parts) => model::split_once(s@, p@) == Some((parts.0@, parts.1@)),
            None => model::split_once(s@, p@) is None,
        },
{
    match find(s, p) {
        Some(i) => {
            let total: usize = s.unicode_len();
            let n: usize = p.unicode_len();
            assert(i + n <= total);
            Some((prefix_to(s, i), suffix_from(s, i + n)))
        },
        None => None,
    }
}

// --- Trimming ----------------------------------------------------------------

pub fn trim_start<'a>(s: &'a str, class: CharClass) -> (r: &'a str)
    ensures
        r@ == model::trim_start(s@, class),
{
    let text = to_chars(s);
    let mut i: usize = 0;
    assert(s@.skip(0) =~= s@);
    while i < text.len() && in_class(class, text[i])
        invariant
            text@ == s@,
            i <= text@.len(),
            model::trim_start(s@.skip(i as int), class) == model::trim_start(s@, class),
        decreases text@.len() - i,
    {
        assert(s@.skip(i as int).drop_first() =~= s@.skip(i + 1));
        i += 1;
    }
    assert(i < s@.len() ==> s@.skip(i as int)[0] == s@[i as int]);
    suffix_from(s, i)
}

pub fn trim_end<'a>(s: &'a str, class: CharClass) -> (r: &'a str)
    ensures
        r@ == model::trim_end(s@, class),
{
    let text = to_chars(s);
    let mut i: usize = text.len();
    assert(s@.take(s@.len() as int) =~= s@);
    while i > 0 && in_class(class, text[i - 1])
        invariant
            text@ == s@,
            i <= text@.len(),
            model::trim_end(s@.take(i as int), class) == model::trim_end(s@, class),
        decreases i,
    {
        assert(s@.take(i as int).drop_last() =~= s@.take(i - 1));
        i -= 1;
    }
    prefix_to(s, i)
}

pub fn trim<'a>(s: &'a str, class: CharClass) -> (r: &'a str)
    ensures
        r@ == model::trim(s@, class),
{
    trim_end(trim_start(s, class), class)
}

/// `s` without the copies of `p` that it begins with.
pub fn trim_start_text<'a>(s: &'a str, p: &str) -> (r: &'a str)
    ensures
        r@ == model::trim_start_text(s@, p@),
{
    let n: usize = p.unicode_len();
    if n == 0 {
        return s;
    }
    let mut rest = s;
    while starts_with(rest, p)
        invariant
            n == p@.len(),
            n > 0,
            model::trim_start_text(rest@, p@) == model::trim_start_text(s@, p@),
        decreases rest@.len(),
    {
        rest = suffix_from(rest, n);
    }
    rest
}

// --- Splitting and joining ---------------------------------------------------

/// The pieces of `s` between characters of the class.
pub fn split(s: &str, class: CharClass) -> (r: Vec<String>)
    ensures
        model::views(r@) == model::split(s@, class),
        r@.len() > 0,
{
    let text = to_chars(s);
    let mut pieces: Vec<String> = Vec::new();
    let mut piece = String::new();
    let mut i: usize = 0;
    assert(model::split(s@.take(0), class) =~= seq![Seq::<char>::empty()]);
    assert(model::views(pieces@).push(piece@) =~= seq![Seq::<char>::empty()]);
    while i < text.len()
        invariant
            text@ == s@,
            i <= text@.len(),
            model::views(pieces@).push(piece@) == model::split(s@.take(i as int), class),
        decreases text@.len() - i,
    {
        let c = text[i];
        let ghost before = model::split(s@.take(i as int), class);
        assert(s@.take(i + 1).drop_last() =~= s@.take(i as int));
        assert(before.drop_last() =~= model::views(pieces@));
        if in_class(class, c) {
            pieces.push(piece);
            piece = String::new();
            assert(model::views(pieces@) =~= before);
            assert(model::views(pieces@).push(piece@) =~= before.push(Seq::empty()));
        } else {
            piece.push(c);
        }
        i += 1;
    }
    assert(s@.take(s@.len() as int) =~= s@);
    let ghost held = pieces@;
    let ghost final_piece = piece@;
    pieces.push(piece);
    assert(model::views(pieces@) =~= model::views(held).push(final_piece));
    pieces
}

/// The strings that are not empty.
pub fn nonempty(pieces: &Vec<String>) -> (r: Vec<String>)
    ensures
        model::views(r@) == model::nonempty(model::views(pieces@)),
{
    let mut out: Vec<String> = Vec::new();
    let ghost all = model::views(pieces@);
    let mut i: usize = 0;
    assert(model::views(out@) =~= model::nonempty(all.take(0)));
    while i < pieces.len()
        invariant
            i <= pieces@.len(),
            all == model::views(pieces@),
            model::views(out@) == model::nonempty(all.take(i as int)),
        decreases pieces@.len() - i,
    {
        assert(all.take(i + 1).drop_last() =~= all.take(i as int));
        if !pieces[i].as_str().is_empty() {
            let ghost held = out@;
            out.push(pieces[i].clone());
            assert(model::views(out@) =~= model::views(held).push(pieces@[i as int]@));
        }
        i += 1;
    }
    assert(all.take(all.len() as int) =~= all);
    out
}

/// The words of `s`, which white space separates.
pub fn words(s: &str) -> (r: Vec<String>)
    ensures
        model::views(r@) == model::words(s@),
{
    nonempty(&split(s, CharClass::Whitespace))
}

fn without_cr(line: &str) -> (r: String)
    ensures
        r@ == model::without_cr(line@),
{
    let text = to_chars(line);
    let n: usize = text.len();
    if n > 0 && text[n - 1] == '\r' {
        assert(line@.subrange(0, n - 1) =~= line@.drop_last());
        from_chars(&text, 0, n - 1)
    } else {
        line.to_owned()
    }
}

/// The lines of `s`.
pub fn lines(s: &str) -> (r: Vec<String>)
    ensures
        model::views(r@) == model::lines(s@),
{
    let pieces = split(s, CharClass::Only('\n'));
    let ghost all = model::views(pieces@);
    let mut out: Vec<String> = Vec::new();
    let mut i: usize = 0;
    let last: usize = pieces.len() - 1;
    while i < last
        invariant
            all == model::views(pieces@),
            last == pieces@.len() - 1,
            i <= last,
            model::views(out@) == Seq::new(i as nat, |j: int| model::without_cr(all[j])),
        decreases last - i,
    {
        let ghost held = out@;
        let line = without_cr(pieces[i].as_str());
        out.push(line);
        assert(model::views(out@) =~= model::views(held).push(model::without_cr(all[i as int])));
        assert(model::views(out@) =~= Seq::new((i + 1) as nat, |j: int| model::without_cr(all[j])));
        i += 1;
    }
    if !pieces[last].as_str().is_empty() {
        let ghost held = out@;
        out.push(pieces[last].clone());
        assert(model::views(out@) =~= model::views(held).push(all.last()));
    }
    out
}

pub fn join(parts: &Vec<String>, separator: &str) -> (r: String)
    ensures
        r@ == model::join(model::views(parts@), separator@),
{
    let ghost all = model::views(parts@);
    let mut out = String::new();
    let mut i: usize = 0;
    assert(model::join(all.take(0), separator@) =~= Seq::<char>::empty());
    while i < parts.len()
        invariant
            i <= parts@.len(),
            all == model::views(parts@),
            out@ == model::join(all.take(i as int), separator@),
        decreases parts@.len() - i,
    {
        assert(all.take(i + 1).drop_last() =~= all.take(i as int));
        if i > 0 {
            out.append(separator);
        }
        out.append(parts[i].as_str());
        assert(out@ =~= model::join(all.take(i + 1), separator@));
        i += 1;
    }
    assert(all.take(all.len() as int) =~= all);
    out
}

/// `s` with every `from` replaced.
pub fn replace_char(s: &str, from: char, to: &str) -> (r: String)
    ensures
        r@ == model::replace_char(s@, from, to@),
{
    let text = to_chars(s);
    let mut out = String::new();
    let mut i: usize = 0;
    assert(model::replace_char(s@.take(0), from, to@) =~= Seq::<char>::empty());
    while i < text.len()
        invariant
            text@ == s@,
            i <= text@.len(),
            out@ == model::replace_char(s@.take(i as int), from, to@),
        decreases text@.len() - i,
    {
        assert(s@.take(i + 1).drop_last() =~= s@.take(i as int));
        if text[i] == from {
            out.append(to);
        } else {
            out.push(text[i]);
        }
        i += 1;
    }
    assert(s@.take(s@.len() as int) =~= s@);
    out
}

/// The characters of `s` outside the class.
pub fn without(s: &str, class: CharClass) -> (r: String)
    ensures
        r@ == model::without(s@, class),
{
    let text = to_chars(s);
    let mut out = String::new();
    let mut i: usize = 0;
    assert(model::without(s@.take(0), class) =~= Seq::<char>::empty());
    while i < text.len()
        invariant
            text@ == s@,
            i <= text@.len(),
            out@ == model::without(s@.take(i as int), class),
        decreases text@.len() - i,
    {
        assert(s@.take(i + 1).drop_last() =~= s@.take(i as int));
        if !in_class(class, text[i]) {
            out.push(text[i]);
        }
        i += 1;
    }
    assert(s@.take(s@.len() as int) =~= s@);
    out
}

/// The part of `s` before the first `c`, or all of it.
pub fn before_first(s: &str, c: char) -> (r: String)
    ensures
        r@ == model::before_first(s@, c),
{
    let pieces = split(s, CharClass::Only(c));
    assert(model::views(pieces@)[0] == pieces@[0]@);
    pieces[0].clone()
}

/// The part of `s` behind the last `c`, or all of it.
pub fn after_last(s: &str, c: char) -> (r: String)
    ensures
        r@ == model::after_last(s@, c),
{
    let pieces = split(s, CharClass::Only(c));
    let last: usize = pieces.len() - 1;
    assert(model::views(pieces@).last() == pieces@[last as int]@);
    pieces[last].clone()
}

/// The part of `s` behind the last `p`, or all of it.
pub fn after_last_text<'a>(s: &'a str, p: &str) -> (r: &'a str)
    ensures
        r@ == model::after_last_text(s@, p@),
{
    let text = to_chars(s);
    let pattern = to_chars(p);
    let n: usize = text.len();
    let m: usize = pattern.len();
    if m > n {
        assert(!model::contains(s@, p@));
        return s;
    }
    let mut i: usize = n - m;
    loop
        invariant
            m <= n,
            i <= n - m,
            n == text@.len(),
            m == pattern@.len(),
            text@ == s@,
            pattern@ == p@,
            forall|j: int| i < j ==> !model::matches_at(s@, p@, j),
        decreases i,
    {
        if chars_match_at(&text, &pattern, i) {
            assert(model::last_match(s@, p@, i as int));
            proof {
                let c = choose|j: int| model::last_match(s@, p@, j);
                assert(model::last_match(s@, p@, c));
                if c < i {
                    assert(!model::matches_at(s@, p@, i as int));
                } else if i < c {
                    assert(!model::matches_at(s@, p@, c));
                }
            }
            return suffix_from(s, i + m);
        }
        if i == 0 {
            assert(!model::contains(s@, p@));
            return s;
        }
        i -= 1;
    }
}

// --- Numbers -----------------------------------------------------------------

fn parse_digits(text: &Vec<char>, from: usize, max: u64) -> (r: Option<u64>)
    requires
        from <= text@.len(),
    ensures
        match r {
            Some(n) => model::parse_digits(text@.skip(from as int), max as nat) == Some(n as nat),
            None => model::parse_digits(text@.skip(from as int), max as nat) is None,
        },
{
    let ghost s = text@.skip(from as int);
    if from == text.len() {
        return None;
    }
    let mut value: u64 = 0;
    let mut i: usize = from;
    while i < text.len()
        invariant
            from <= i <= text@.len(),
            s == text@.skip(from as int),
            value <= max,
            value == model::digits_value(s.take(i - from)),
            forall|j: int| 0 <= j < i - from ==> model::is_digit(#[trigger] s[j]),
        decreases text@.len() - i,
    {
        let c = text[i];
        assert(s[i - from] == c);
        if !('0' <= c && c <= '9') {
            assert(!model::is_digit(s[i - from]));
            return None;
        }
        let digit: u64 = (c as u32 - '0' as u32) as u64;
        assert(s.take(i - from + 1).drop_last() =~= s.take(i - from));
        proof {
            model::lemma_digits_monotone(s, i - from + 1);
        }
        let next: u128 = (value as u128) * 10 + digit as u128;
        if next > max as u128 {
            return None;
        }
        value = next as u64;
        i += 1;
    }
    assert(s.take(s.len() as int) =~= s);
    Some(value)
}

/// A decimal number of at most `max`, with or without a plus sign.
pub fn parse_unsigned(s: &str, max: u64) -> (r: Option<u64>)
    ensures
        match r {
            Some(n) => model::parse_unsigned(s@, max as nat) == Some(n as nat),
            None => model::parse_unsigned(s@, max as nat) is None,
        },
{
    let text = to_chars(s);
    assert(s@.skip(0) =~= s@);
    if text.len() > 0 && text[0] == '+' {
        assert(s@.drop_first() =~= s@.skip(1));
        parse_digits(&text, 1, max)
    } else {
        parse_digits(&text, 0, max)
    }
}

/// A decimal number that fits in 64 bits, with or without a sign.
pub fn parse_i64(s: &str) -> (r: Option<i64>)
    ensures
        match r {
            Some(n) => model::parse_i64(s@) == Some(n as int),
            None => model::parse_i64(s@) is None,
        },
{
    let text = to_chars(s);
    if text.len() > 0 && text[0] == '-' {
        assert(s@.drop_first() =~= s@.skip(1));
        match parse_digits(&text, 1, 0x8000_0000_0000_0000) {
            Some(n) => Some((0 - (n as i128)) as i64),
            None => None,
        }
    } else {
        match parse_unsigned(s, i64::MAX as u64) {
            Some(n) => Some(n as i64),
            None => None,
        }
    }
}

/// The decimal digits of a number.
pub fn decimal(n: u64) -> (r: String)
    ensures
        r@ == model::decimal(n as nat),
    decreases n,
{
    let digit = (('0' as u8) + (n % 10) as u8) as char;
    if n < 10 {
        let mut out = String::new();
        out.push(digit);
        assert(out@ =~= seq![digit]);
        out
    } else {
        let mut out = decimal(n / 10);
        out.push(digit);
        out
    }
}

} // verus!
