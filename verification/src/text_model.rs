//! Text as sequences of characters: what the operations of [`crate::text`] mean.

use vstd::prelude::*;

verus! {

/// A set of characters to trim or split on.
#[derive(Clone, Copy)]
pub enum CharClass {
    /// Unicode white space.
    Whitespace,
    /// White space, quotes, colons and dashes that may stand before a name.
    NameLead,
    /// Everything but letters and digits.
    NotAlphanumeric,
    /// Everything but letters, digits and dashes.
    NotAlphanumericOrDash,
    /// One character.
    Only(char),
}

/// What `char::is_whitespace` answers outside ASCII.
pub uninterp spec fn unicode_whitespace(c: char) -> bool;

/// What `char::is_alphanumeric` answers outside ASCII.
pub uninterp spec fn unicode_alphanumeric(c: char) -> bool;

/// What `str::to_lowercase` makes of a text that is not of ASCII alone.
pub uninterp spec fn unicode_lowercase(s: Seq<char>) -> Seq<char>;

/// White space.
#[verifier::opaque]
pub open spec fn is_whitespace(c: char) -> bool {
    if is_ascii(c) {
        is_ascii_space(c)
    } else {
        unicode_whitespace(c)
    }
}

/// A letter or digit.
#[verifier::opaque]
pub open spec fn is_alphanumeric(c: char) -> bool {
    if is_ascii(c) {
        is_ascii_alphanumeric(c)
    } else {
        unicode_alphanumeric(c)
    }
}

/// A text in lower case.
#[verifier::opaque]
pub open spec fn lowercase(s: Seq<char>) -> Seq<char> {
    if all_ascii(s) {
        ascii_lowercase(s)
    } else {
        unicode_lowercase(s)
    }
}

/// A character of ASCII.
pub open spec fn is_ascii(c: char) -> bool {
    (c as u32) < 128
}

/// The white space of ASCII: tab to carriage return, and space.
pub open spec fn is_ascii_space(c: char) -> bool {
    9 <= (c as u32) <= 13 || c == ' '
}

/// A letter or digit of ASCII.
pub open spec fn is_ascii_alphanumeric(c: char) -> bool {
    'a' <= c <= 'z' || 'A' <= c <= 'Z' || '0' <= c <= '9'
}

/// A text of ASCII alone.
pub open spec fn all_ascii(s: Seq<char>) -> bool {
    forall|i: int| 0 <= i < s.len() ==> is_ascii(#[trigger] s[i])
}

/// A text with the letters of ASCII in lower case.
pub open spec fn ascii_lowercase(s: Seq<char>) -> Seq<char> {
    Seq::new(s.len(), |i: int| ascii_lower(s[i]))
}

impl CharClass {
    pub open spec fn has(self, c: char) -> bool {
        match self {
            CharClass::Whitespace => is_whitespace(c),
            CharClass::NameLead => is_whitespace(c) || c == '`' || c == '"' || c == '\'' || c == ':'
                || c == '-',
            CharClass::NotAlphanumeric => !is_alphanumeric(c),
            CharClass::NotAlphanumericOrDash => !is_alphanumeric(c) && c != '-',
            CharClass::Only(d) => c == d,
        }
    }
}

/// The texts of a sequence of strings.
pub open spec fn views(strings: Seq<String>) -> Seq<Seq<char>> {
    Seq::new(strings.len(), |i: int| strings[i]@)
}

/// The text of an optional string.
pub open spec fn opt_view(s: Option<String>) -> Option<Seq<char>> {
    match s {
        Some(t) => Some(t@),
        None => None,
    }
}

/// The text of an optional string, empty when there is none.
pub open spec fn text_or_empty(s: Option<String>) -> Seq<char> {
    match s {
        Some(t) => t@,
        None => Seq::empty(),
    }
}

/// The number of bytes of the UTF-8 encoding.
pub open spec fn utf8_len(s: Seq<char>) -> nat {
    vstd::utf8::encode_utf8(s).len()
}

// --- Searching ---------------------------------------------------------------

/// `p` stands in `s` at position `i`.
pub open spec fn matches_at(s: Seq<char>, p: Seq<char>, i: int) -> bool {
    0 <= i && i + p.len() <= s.len() && s.subrange(i, i + p.len()) == p
}

/// `i` is the first position at which `p` stands in `s`.
pub open spec fn first_match(s: Seq<char>, p: Seq<char>, i: int) -> bool {
    matches_at(s, p, i) && forall|j: int| 0 <= j < i ==> !matches_at(s, p, j)
}

pub open spec fn contains(s: Seq<char>, p: Seq<char>) -> bool {
    exists|i: int| matches_at(s, p, i)
}

/// The first position of `p` in `s`.
pub open spec fn find(s: Seq<char>, p: Seq<char>) -> Option<int> {
    if contains(s, p) {
        Some(choose|i: int| first_match(s, p, i))
    } else {
        None
    }
}

pub open spec fn starts_with(s: Seq<char>, p: Seq<char>) -> bool {
    p.len() <= s.len() && s.take(p.len() as int) == p
}

pub open spec fn ends_with(s: Seq<char>, p: Seq<char>) -> bool {
    p.len() <= s.len() && s.skip(s.len() - p.len()) == p
}

/// Some phrase of a table stands in `s`.
pub open spec fn any_phrase(s: Seq<char>, phrases: Seq<&str>) -> bool {
    exists|k: int| 0 <= k < phrases.len() && contains(s, (#[trigger] phrases[k])@)
}

/// `s` is one of the words of a table.
pub open spec fn any_equal(s: Seq<char>, words: Seq<&str>) -> bool {
    exists|k: int| 0 <= k < words.len() && s == (#[trigger] words[k])@
}

/// `s` ends in some suffix of a table.
pub open spec fn any_suffix(s: Seq<char>, suffixes: Seq<&str>) -> bool {
    exists|k: int| 0 <= k < suffixes.len() && ends_with(s, (#[trigger] suffixes[k])@)
}

/// The part of `s` before the first `p` and the part behind it.
pub open spec fn split_once(s: Seq<char>, p: Seq<char>) -> Option<(Seq<char>, Seq<char>)> {
    match find(s, p) {
        Some(i) => Some((s.take(i), s.skip(i + p.len()))),
        None => None,
    }
}

// --- Trimming ----------------------------------------------------------------

pub open spec fn trim_start(s: Seq<char>, class: CharClass) -> Seq<char>
    decreases s.len(),
{
    if s.len() > 0 && class.has(s[0]) {
        trim_start(s.drop_first(), class)
    } else {
        s
    }
}

pub open spec fn trim_end(s: Seq<char>, class: CharClass) -> Seq<char>
    decreases s.len(),
{
    if s.len() > 0 && class.has(s.last()) {
        trim_end(s.drop_last(), class)
    } else {
        s
    }
}

pub open spec fn trim(s: Seq<char>, class: CharClass) -> Seq<char> {
    trim_end(trim_start(s, class), class)
}

/// `s` without the copies of `p` that it begins with.
pub open spec fn trim_start_text(s: Seq<char>, p: Seq<char>) -> Seq<char>
    decreases s.len(),
{
    if p.len() > 0 && starts_with(s, p) {
        trim_start_text(s.skip(p.len() as int), p)
    } else {
        s
    }
}

// --- Splitting and joining ---------------------------------------------------

/// The pieces of `s` between characters of the class: such a character begins
/// a new piece, any other character extends the last one.
pub open spec fn split(s: Seq<char>, class: CharClass) -> Seq<Seq<char>>
    decreases s.len(),
{
    if s.len() == 0 {
        seq![Seq::empty()]
    } else {
        let before = split(s.drop_last(), class);
        if class.has(s.last()) {
            before.push(Seq::empty())
        } else {
            before.drop_last().push(before.last().push(s.last()))
        }
    }
}

/// The pieces that are not empty.
pub open spec fn nonempty(pieces: Seq<Seq<char>>) -> Seq<Seq<char>>
    decreases pieces.len(),
{
    if pieces.len() == 0 {
        pieces
    } else if pieces.last().len() > 0 {
        nonempty(pieces.drop_last()).push(pieces.last())
    } else {
        nonempty(pieces.drop_last())
    }
}

/// The words of `s`, which white space separates.
pub open spec fn words(s: Seq<char>) -> Seq<Seq<char>> {
    nonempty(split(s, CharClass::Whitespace))
}

/// A line without the carriage return before its line feed.
pub open spec fn without_cr(line: Seq<char>) -> Seq<char> {
    if line.len() > 0 && line.last() == '\r' {
        line.drop_last()
    } else {
        line
    }
}

/// The lines of `s`: each ends in a line feed, with or without a carriage
/// return before it; what follows the last line feed is a line if not empty.
pub open spec fn lines(s: Seq<char>) -> Seq<Seq<char>> {
    let pieces = split(s, CharClass::Only('\n'));
    let ended = Seq::new((pieces.len() - 1) as nat, |i: int| without_cr(pieces[i]));
    if pieces.last().len() == 0 {
        ended
    } else {
        ended.push(pieces.last())
    }
}

pub open spec fn join(parts: Seq<Seq<char>>, separator: Seq<char>) -> Seq<char>
    decreases parts.len(),
{
    if parts.len() == 0 {
        Seq::empty()
    } else if parts.len() == 1 {
        parts[0]
    } else {
        join(parts.drop_last(), separator) + separator + parts.last()
    }
}

/// `s` with every `from` replaced.
pub open spec fn replace_char(s: Seq<char>, from: char, to: Seq<char>) -> Seq<char>
    decreases s.len(),
{
    if s.len() == 0 {
        s
    } else if s.last() == from {
        replace_char(s.drop_last(), from, to) + to
    } else {
        replace_char(s.drop_last(), from, to).push(s.last())
    }
}

/// The characters of `s` outside the class.
pub open spec fn without(s: Seq<char>, class: CharClass) -> Seq<char>
    decreases s.len(),
{
    if s.len() == 0 {
        s
    } else if class.has(s.last()) {
        without(s.drop_last(), class)
    } else {
        without(s.drop_last(), class).push(s.last())
    }
}

/// The part of `s` before the first `c`, or all of it.
pub open spec fn before_first(s: Seq<char>, c: char) -> Seq<char> {
    split(s, CharClass::Only(c))[0]
}

/// The part of `s` behind the last `c`, or all of it.
pub open spec fn after_last(s: Seq<char>, c: char) -> Seq<char> {
    split(s, CharClass::Only(c)).last()
}

/// `i` is the last position at which `p` stands in `s`.
pub open spec fn last_match(s: Seq<char>, p: Seq<char>, i: int) -> bool {
    matches_at(s, p, i) && forall|j: int| i < j ==> !matches_at(s, p, j)
}

/// The part of `s` behind the last `p`, or all of it.
pub open spec fn after_last_text(s: Seq<char>, p: Seq<char>) -> Seq<char> {
    if contains(s, p) {
        s.skip((choose|i: int| last_match(s, p, i)) + p.len())
    } else {
        s
    }
}

// --- Comparing ---------------------------------------------------------------

pub open spec fn ascii_lower(c: char) -> char {
    if 'A' <= c && c <= 'Z' {
        (c as u32 + 32) as char
    } else {
        c
    }
}

/// Equality up to the case of ASCII letters.
pub open spec fn eq_ignore_ascii_case(a: Seq<char>, b: Seq<char>) -> bool {
    a.len() == b.len() && forall|i: int|
        0 <= i < a.len() ==> ascii_lower(#[trigger] a[i]) == ascii_lower(b[i])
}

/// `a` comes before `b` in the order of code points.
pub open spec fn precedes(a: Seq<char>, b: Seq<char>) -> bool
    decreases a.len(),
{
    if b.len() == 0 {
        false
    } else if a.len() == 0 {
        true
    } else if a[0] != b[0] {
        a[0] < b[0]
    } else {
        precedes(a.drop_first(), b.drop_first())
    }
}

// --- Numbers -----------------------------------------------------------------

pub open spec fn is_digit(c: char) -> bool {
    '0' <= c && c <= '9'
}

pub open spec fn all_digits(s: Seq<char>) -> bool {
    forall|i: int| 0 <= i < s.len() ==> is_digit(#[trigger] s[i])
}

/// The number that decimal digits write.
pub open spec fn digits_value(s: Seq<char>) -> nat
    decreases s.len(),
{
    if s.len() == 0 {
        0
    } else {
        digits_value(s.drop_last()) * 10 + (s.last() as nat - '0' as nat) as nat
    }
}

/// The number that a non-empty row of digits writes, if it is at most `max`.
pub open spec fn parse_digits(s: Seq<char>, max: nat) -> Option<nat> {
    if s.len() > 0 && all_digits(s) && digits_value(s) <= max {
        Some(digits_value(s))
    } else {
        None
    }
}

/// A decimal number of at most `max`, with or without a plus sign.
pub open spec fn parse_unsigned(s: Seq<char>, max: nat) -> Option<nat> {
    if s.len() > 0 && s[0] == '+' {
        parse_digits(s.drop_first(), max)
    } else {
        parse_digits(s, max)
    }
}

/// A decimal number that fits in 64 bits, with or without a sign.
pub open spec fn parse_i64(s: Seq<char>) -> Option<int> {
    if s.len() > 0 && s[0] == '-' {
        match parse_digits(s.drop_first(), 0x8000_0000_0000_0000) {
            Some(n) => Some(-(n as int)),
            None => None,
        }
    } else {
        match parse_unsigned(s, i64::MAX as nat) {
            Some(n) => Some(n as int),
            None => None,
        }
    }
}

/// The decimal digits of a number.
pub open spec fn decimal(n: nat) -> Seq<char>
    decreases n,
{
    let digit = ('0' as nat + n % 10) as char;
    if n < 10 {
        seq![digit]
    } else {
        decimal(n / 10).push(digit)
    }
}

// --- Facts -------------------------------------------------------------------

pub proof fn lemma_find(s: Seq<char>, p: Seq<char>, i: int)
    requires
        first_match(s, p, i),
    ensures
        find(s, p) == Some(i),
{
    let c = choose|j: int| first_match(s, p, j);
    assert(first_match(s, p, c));
    assert(c == i) by {
        if c < i {
            assert(!matches_at(s, p, c));
        } else if i < c {
            assert(!matches_at(s, p, i));
        }
    }
}

/// A first match exists where there is any.
pub proof fn lemma_least_match(s: Seq<char>, p: Seq<char>, i: int) -> (r: int)
    requires
        matches_at(s, p, i),
    ensures
        first_match(s, p, r),
        0 <= r <= i,
    decreases i,
{
    if exists|j: int| 0 <= j < i && matches_at(s, p, j) {
        let j = choose|j: int| 0 <= j < i && matches_at(s, p, j);
        lemma_least_match(s, p, j)
    } else {
        i
    }
}

/// What `find` finds stands where it says.
pub proof fn lemma_found(s: Seq<char>, p: Seq<char>)
    ensures
        find(s, p) matches Some(i) ==> first_match(s, p, i) && 0 <= i && i + p.len() <= s.len(),
        find(s, p) is Some <==> contains(s, p),
{
    if contains(s, p) {
        let w = choose|i: int| matches_at(s, p, i);
        let r = lemma_least_match(s, p, w);
        lemma_find(s, p, r);
    }
}

/// A text without one of the characters of a pattern does not contain it.
pub proof fn lemma_lacks(s: Seq<char>, p: Seq<char>, k: int)
    requires
        0 <= k < p.len(),
        forall|j: int| 0 <= j < s.len() ==> #[trigger] s[j] != p[k],
    ensures
        !contains(s, p),
{
    assert forall|i: int| !matches_at(s, p, i) by {
        if matches_at(s, p, i) {
            assert(s.subrange(i, i + p.len())[k] == s[i + k]);
        }
    }
}

/// A text of ASCII and its lower-case form have the same lower-case form.
pub proof fn lemma_lowered_ascii(s: Seq<char>)
    requires
        all_ascii(s),
    ensures
        lowercase(s) == ascii_lowercase(s),
        all_ascii(ascii_lowercase(s)),
        lowercase(ascii_lowercase(s)) == lowercase(s),
{
    reveal(lowercase);
    assert forall|i: int| 0 <= i < s.len() implies is_ascii(#[trigger] ascii_lowercase(s)[i]) by {
        assert(is_ascii(s[i]));
    }
    assert(ascii_lowercase(ascii_lowercase(s)) =~= ascii_lowercase(s));
}

/// The pieces of a text in their lower-case form.
pub open spec fn ascii_lowercase_pieces(pieces: Seq<Seq<char>>) -> Seq<Seq<char>> {
    Seq::new(pieces.len(), |i: int| ascii_lowercase(pieces[i]))
}

/// A character that is no letter splits a text and its lower-case form alike.
pub proof fn lemma_split_lowered(s: Seq<char>, c: char)
    requires
        !is_ascii_alphanumeric(c),
    ensures
        split(ascii_lowercase(s), CharClass::Only(c)) == ascii_lowercase_pieces(
            split(s, CharClass::Only(c)),
        ),
        split(s, CharClass::Only(c)).len() > 0,
        all_ascii(s) ==> forall|i: int|
            0 <= i < split(s, CharClass::Only(c)).len() ==> all_ascii(
                #[trigger] split(s, CharClass::Only(c))[i],
            ),
    decreases s.len(),
{
    let class = CharClass::Only(c);
    if s.len() > 0 {
        lemma_split_lowered(s.drop_last(), c);
        let before = split(s.drop_last(), class);
        let low = ascii_lowercase(s);
        assert(low.drop_last() =~= ascii_lowercase(s.drop_last()));
        assert(low.last() == ascii_lower(s.last()));
        assert(class.has(low.last()) == class.has(s.last()));
        if class.has(s.last()) {
            assert(ascii_lowercase(Seq::empty()) =~= Seq::empty());
        } else {
            assert(ascii_lowercase(before.last().push(s.last())) =~= ascii_lowercase(
                before.last(),
            ).push(low.last()));
        }
        assert(split(low, class) =~= ascii_lowercase_pieces(split(s, class)));
    } else {
        assert(ascii_lowercase(s) =~= s);
        assert(ascii_lowercase(Seq::empty()) =~= Seq::empty());
        assert(split(s, class) =~= ascii_lowercase_pieces(split(s, class)));
    }
}

/// A pattern without letters stands at the same positions in a text and in its
/// lower-case form.
pub proof fn lemma_find_lowered(s: Seq<char>, p: Seq<char>)
    requires
        forall|i: int| 0 <= i < p.len() ==> !is_ascii_alphanumeric(#[trigger] p[i]),
    ensures
        find(ascii_lowercase(s), p) == find(s, p),
{
    let low = ascii_lowercase(s);
    assert forall|i: int| matches_at(low, p, i) == matches_at(s, p, i) by {
        if 0 <= i && i + p.len() <= s.len() {
            let a = low.subrange(i, i + p.len());
            let b = s.subrange(i, i + p.len());
            assert forall|j: int| 0 <= j < p.len() implies (a[j] == p[j]) == (b[j] == p[j]) by {
                assert(a[j] == ascii_lower(b[j]));
                assert(!is_ascii_alphanumeric(p[j]));
            }
            if a == p {
                assert(b =~= p);
            }
            if b == p {
                assert(a =~= p);
            }
        }
    }
    lemma_found(low, p);
    lemma_found(s, p);
    if contains(s, p) {
        let w = choose|i: int| matches_at(s, p, i);
        assert(matches_at(low, p, w));
        let i = find(s, p)->0;
        assert(matches_at(low, p, i));
        assert forall|j: int| 0 <= j < i implies !matches_at(low, p, j) by {
            assert(!matches_at(s, p, j));
        }
        lemma_find(low, p, i);
    } else if contains(low, p) {
        let w = choose|i: int| matches_at(low, p, i);
        assert(matches_at(s, p, w));
    }
}

pub proof fn lemma_digits_monotone(s: Seq<char>, i: int)
    requires
        0 <= i <= s.len(),
    ensures
        digits_value(s.take(i)) <= digits_value(s),
    decreases s.len() - i,
{
    if i < s.len() {
        lemma_digits_monotone(s, i + 1);
        assert(s.take(i + 1).drop_last() == s.take(i));
    } else {
        assert(s.take(i) == s);
    }
}

} // verus!
