//! Laws of names and phrases: what a text names as its origin, and what it claims.

use crate::detect::classify;
use crate::laws::log;
use crate::laws::texts;
use crate::text_model as model;
use crate::text_model::CharClass;
use crate::types::Candidate;
use vstd::prelude::*;
use vstd::string::*;

verus! {

// --- Plain words -------------------------------------------------------------

/// A word of letters and digits of ASCII.
pub open spec fn is_plain(w: Seq<char>) -> bool {
    w.len() > 0 && forall|i: int|
        0 <= i < w.len() ==> model::is_ascii_alphanumeric(#[trigger] w[i])
}

proof fn lemma_plain(w: Seq<char>)
    requires
        is_plain(w),
    ensures
        texts::is_word(w),
        forall|i: int| 0 <= i < w.len() ==> model::is_alphanumeric(#[trigger] w[i]),
        log::lacks(w, ' '),
        model::all_ascii(w),
        model::words(w) == seq![w],
        model::trim(w, CharClass::Whitespace) == w,
        model::trim_start(w, CharClass::NameLead) == w,
        model::trim(w, CharClass::NotAlphanumeric) == w,
        model::trim(w, CharClass::NotAlphanumericOrDash) == w,
{
    reveal(model::is_whitespace);
    reveal(model::is_alphanumeric);
    assert forall|i: int| 0 <= i < w.len() implies !model::is_whitespace(#[trigger] w[i])
        && model::is_alphanumeric(w[i]) && w[i] != ' ' && model::is_ascii(w[i]) by {
        assert(model::is_ascii_alphanumeric(w[i]));
    }
    assert(model::is_ascii_alphanumeric(w[0]));
    assert(model::is_alphanumeric(w[0]));
    assert(model::is_alphanumeric(w[w.len() - 1]));
    texts::words_are_words(w);
}

/// A stop begins with no letter or digit, and one that begins with a space holds
/// another character that is none.
spec fn is_stop_text(p: Seq<char>) -> bool {
    &&& p.len() > 0
    &&& !model::is_ascii_alphanumeric(p[0])
    &&& p[0] == ' ' ==> exists|m: int|
        1 <= m < p.len() && !model::is_ascii_alphanumeric(#[trigger] p[m])
}

proof fn lemma_stops()
    ensures
        forall|k: int|
            0 <= k < classify::ORIGIN_STOPS@.len() ==> is_stop_text(
                (#[trigger] classify::ORIGIN_STOPS@[k])@,
            ),
{
    reveal_strlit(",");
    reveal_strlit(".");
    reveal_strlit(";");
    reveal_strlit(":");
    reveal_strlit("(");
    reveal_strlit(")");
    reveal_strlit("`");
    reveal_strlit("\"");
    reveal_strlit("/");
    reveal_strlit("!");
    reveal_strlit("?");
    reveal_strlit("\n");
    reveal_strlit(" — ");
    reveal_strlit(" - ");
    reveal_strlit(" using ");
    reveal_strlit(" written ");
    reveal_strlit(" built ");
    reveal_strlit(" with ");
    reveal_strlit(" that ");
    reveal_strlit(" which ");
    reveal_strlit(" in rust");
    reveal_strlit(" and ");
    reveal_strlit(" for ");
    reveal_strlit(" repo ");
    reveal_strlit(" mentions ");
    reveal_strlit(" describes ");
    reveal_strlit(" positions ");
    reveal_strlit(" is a ");
    let t = classify::ORIGIN_STOPS@;
    assert(!model::is_ascii_alphanumeric(t[12]@[1]));
    assert(!model::is_ascii_alphanumeric(t[13]@[1]));
    assert(!model::is_ascii_alphanumeric(t[14]@[6]));
    assert(!model::is_ascii_alphanumeric(t[15]@[8]));
    assert(!model::is_ascii_alphanumeric(t[16]@[6]));
    assert(!model::is_ascii_alphanumeric(t[17]@[5]));
    assert(!model::is_ascii_alphanumeric(t[18]@[5]));
    assert(!model::is_ascii_alphanumeric(t[19]@[6]));
    assert(!model::is_ascii_alphanumeric(t[20]@[3]));
    assert(!model::is_ascii_alphanumeric(t[21]@[4]));
    assert(!model::is_ascii_alphanumeric(t[22]@[4]));
    assert(!model::is_ascii_alphanumeric(t[23]@[5]));
    assert(!model::is_ascii_alphanumeric(t[24]@[9]));
    assert(!model::is_ascii_alphanumeric(t[25]@[10]));
    assert(!model::is_ascii_alphanumeric(t[26]@[10]));
    assert(!model::is_ascii_alphanumeric(t[27]@[3]));
}

proof fn lemma_name_end(s: Seq<char>, end: int)
    requires
        classify::is_name_end(s, end),
    ensures
        classify::name_end(s) == end,
{
    let c = classify::name_end(s);
    assert(classify::is_name_end(s, c));
    if c < end {
        assert(!classify::stop_at(s, c));
    } else if end < c {
        assert(!classify::stop_at(s, end));
    }
}

/// No stop stands within a plain word.
proof fn lemma_no_stop_within(s: Seq<char>, w: Seq<char>)
    requires
        is_plain(w),
        w.len() <= s.len(),
        s.take(w.len() as int) == w,
    ensures
        forall|j: int| 0 <= j < w.len() ==> !classify::stop_at(s, j),
{
    lemma_stops();
    assert forall|j: int| 0 <= j < w.len() implies !classify::stop_at(s, j) by {
        if classify::stop_at(s, j) {
            let k = choose|k: int|
                0 <= k < classify::ORIGIN_STOPS@.len() && model::matches_at(
                    s,
                    (#[trigger] classify::ORIGIN_STOPS@[k])@,
                    j,
                );
            let p = classify::ORIGIN_STOPS@[k]@;
            assert(is_stop_text(p));
            assert(s.subrange(j, j + p.len())[0] == s[j]);
            assert(s.take(w.len() as int)[j] == s[j]);
            assert(model::is_ascii_alphanumeric(w[j]));
        }
    }
}

proof fn lemma_no_article(w: Seq<char>)
    requires
        log::lacks(w, ' '),
    ensures
        classify::strip_articles(w, 3) == w,
{
    reveal_strlit("the ");
    reveal_strlit("a ");
    reveal_strlit("an ");
    reveal_with_fuel(classify::strip_articles, 4);
    let t = classify::ARTICLES@;
    assert(!model::starts_with(w, t[0]@)) by {
        if model::starts_with(w, t[0]@) {
            assert(w.take(4)[3] == w[3]);
        }
    }
    assert(!model::starts_with(w, t[1]@)) by {
        if model::starts_with(w, t[1]@) {
            assert(w.take(2)[1] == w[1]);
        }
    }
    assert(!model::starts_with(w, t[2]@)) by {
        if model::starts_with(w, t[2]@) {
            assert(w.take(3)[2] == w[2]);
        }
    }
}

// --- Names -------------------------------------------------------------------

/// A word that ends with the text, or at a stop, is the name that the text begins
/// with, whatever follows the stop.
pub proof fn names_end_at_stops(w: Seq<char>, k: int, rest: Seq<char>)
    requires
        is_plain(w),
        0 <= k < classify::ORIGIN_STOPS@.len(),
    ensures
        classify::leading_name(w) == Some(w),
        classify::leading_name(w + classify::ORIGIN_STOPS@[k]@ + rest) == Some(w),
        classify::leading_name(seq![' '] + w) == Some(w),
        classify::leading_name(seq![' '] + (w + classify::ORIGIN_STOPS@[k]@ + rest)) == Some(w),
{
    let p = classify::ORIGIN_STOPS@[k]@;
    let s = w + p + rest;
    lemma_stops();
    let n = w.len() as int;
    assert(s.take(n) =~= w);
    assert(w.take(n) =~= w);
    lemma_no_stop_within(s, w);
    lemma_no_stop_within(w, w);
    assert(s.subrange(n, n + p.len()) =~= p);
    assert(model::matches_at(s, p, n));
    assert(classify::stop_at(s, n));
    lemma_name_end(s, n);
    lemma_name_end(w, n);
    lemma_plain(w);
    lemma_no_article(w);
    assert(model::is_ascii_alphanumeric(w[0]));
    assert(s[0] == w[0]);
    assert(model::trim_start(s, CharClass::NameLead) == s) by {
        reveal(model::is_whitespace);
    }
    assert(seq![w].len() == 1 && seq![w][0] == w);
    reveal(model::is_whitespace);
    assert((seq![' '] + w).drop_first() =~= w);
    assert((seq![' '] + s).drop_first() =~= s);
    assert(model::trim_start(seq![' '] + w, CharClass::NameLead) == w);
    assert(model::trim_start(seq![' '] + s, CharClass::NameLead) == s);
}

/// The stops are these: marks, and words that begin something else.
pub proof fn common_stops_end_names(w: Seq<char>, rest: Seq<char>)
    requires
        is_plain(w),
    ensures
        classify::leading_name(w + ","@ + rest) == Some(w),
        classify::leading_name(w + "."@ + rest) == Some(w),
        classify::leading_name(w + "("@ + rest) == Some(w),
        classify::leading_name(w + "/"@ + rest) == Some(w),
        classify::leading_name(w + " - "@ + rest) == Some(w),
        classify::leading_name(w + " using "@ + rest) == Some(w),
        classify::leading_name(w + " written "@ + rest) == Some(w),
        classify::leading_name(w + " with "@ + rest) == Some(w),
        classify::leading_name(w + " that "@ + rest) == Some(w),
        classify::leading_name(w + " in rust"@ + rest) == Some(w),
        classify::leading_name(w + " and "@ + rest) == Some(w),
        classify::leading_name(w + " for "@ + rest) == Some(w),
{
    let t = classify::ORIGIN_STOPS@;
    assert(t[0]@ == ","@ && t[1]@ == "."@ && t[4]@ == "("@ && t[8]@ == "/"@ && t[13]@ == " - "@);
    assert(t[14]@ == " using "@ && t[15]@ == " written "@ && t[17]@ == " with "@);
    assert(t[18]@ == " that "@ && t[20]@ == " in rust"@ && t[21]@ == " and "@ && t[22]@
        == " for "@);
    names_end_at_stops(w, 0, rest);
    names_end_at_stops(w, 1, rest);
    names_end_at_stops(w, 4, rest);
    names_end_at_stops(w, 8, rest);
    names_end_at_stops(w, 13, rest);
    names_end_at_stops(w, 14, rest);
    names_end_at_stops(w, 15, rest);
    names_end_at_stops(w, 17, rest);
    names_end_at_stops(w, 18, rest);
    names_end_at_stops(w, 20, rest);
    names_end_at_stops(w, 21, rest);
    names_end_at_stops(w, 22, rest);
}

/// No stop stands in two plain words that end a text.
proof fn lemma_two_words(first: Seq<char>, second: Seq<char>)
    requires
        is_plain(first),
        is_plain(second),
    ensures
        classify::is_name_end(
            first.push(' ') + second,
            (first.push(' ') + second).len() as int,
        ),
{
    let s = first.push(' ') + second;
    let n = first.len() as int;
    lemma_stops();
    assert forall|j: int| 0 <= j < s.len() implies !classify::stop_at(s, j) by {
        if classify::stop_at(s, j) {
            let k = choose|k: int|
                0 <= k < classify::ORIGIN_STOPS@.len() && model::matches_at(
                    s,
                    (#[trigger] classify::ORIGIN_STOPS@[k])@,
                    j,
                );
            let p = classify::ORIGIN_STOPS@[k]@;
            assert(is_stop_text(p));
            assert(s.subrange(j, j + p.len())[0] == s[j]);
            if j < n {
                assert(model::is_ascii_alphanumeric(first[j]));
            } else if j > n {
                assert(model::is_ascii_alphanumeric(second[j - n - 1]));
            } else {
                let m = choose|m: int|
                    1 <= m < p.len() && !model::is_ascii_alphanumeric(#[trigger] p[m]);
                assert(s.subrange(j, j + p.len())[m] == s[j + m]);
                assert(model::is_ascii_alphanumeric(second[m - 1]));
            }
        }
    }
}

/// A name of two words is kept whole, and one behind an article is the name alone.
pub proof fn names_of_two_words_are_kept(first: Seq<char>, second: Seq<char>)
    requires
        is_plain(first),
        is_plain(second),
    ensures
        first != "the"@ && first != "a"@ && first != "an"@ ==> classify::leading_name(
            first.push(' ') + second,
        ) == Some(first.push(' ') + second),
        first == "the"@ || first == "a"@ || first == "an"@ ==> classify::leading_name(
            first.push(' ') + second,
        ) == Some(second),
{
    let s = first.push(' ') + second;
    lemma_two_words(first, second);
    lemma_name_end(s, s.len() as int);
    lemma_plain(first);
    lemma_plain(second);
    assert(s.take(s.len() as int) =~= s);
    assert(s[0] == first[0] && s.last() == second.last());
    assert(model::is_ascii_alphanumeric(first[0]));
    assert(!model::is_whitespace(first[0]));
    assert(!model::is_whitespace(second[second.len() - 1]));
    assert(model::trim_start(s, CharClass::NameLead) == s);
    assert(model::trim(s, CharClass::Whitespace) == s);
    texts::words_are_those_of_the_parts(first, second);
    let both = seq![first, second];
    assert(seq![first] + seq![second] =~= both);
    reveal_strlit(" ");
    assert(" "@ =~= seq![' ']);
    assert(both.drop_last() =~= seq![first]);
    assert(model::join(seq![first], " "@) == first);
    assert(model::join(both, " "@) == first + " "@ + second);
    assert(first + " "@ + second =~= s);
    assert(model::join(seq![second], " "@) == second);
    reveal_strlit("the ");
    reveal_strlit("a ");
    reveal_strlit("an ");
    reveal_strlit("the");
    reveal_strlit("a");
    reveal_strlit("an");
    reveal_with_fuel(classify::strip_articles, 4);
    let t = classify::ARTICLES@;
    assert(t[0]@ =~= "the"@.push(' '));
    assert(t[1]@ =~= "a"@.push(' '));
    assert(t[2]@ =~= "an"@.push(' '));
    lemma_article(first, second, "the"@, t[0]@);
    lemma_article(first, second, "a"@, t[1]@);
    lemma_article(first, second, "an"@, t[2]@);
    lemma_no_article(second);
    if first == "the"@ {
        assert(s.skip(4) =~= second);
    } else if first == "a"@ {
        assert(s.skip(2) =~= second);
    } else if first == "an"@ {
        assert(s.skip(3) =~= second);
    }
}

/// Two words begin with an article exactly where the first is that article.
proof fn lemma_article(
    first: Seq<char>,
    second: Seq<char>,
    article: Seq<char>,
    spaced: Seq<char>,
)
    requires
        log::lacks(first, ' '),
        log::lacks(second, ' '),
        log::lacks(article, ' '),
        spaced == article.push(' '),
    ensures
        model::starts_with(first.push(' ') + second, spaced) <==> first == article,
        !model::starts_with(second, spaced),
{
    let s = first.push(' ') + second;
    let n = article.len() as int;
    if first == article {
        assert(s.take(n + 1) =~= spaced);
    }
    if model::starts_with(s, spaced) {
        assert(s.take(n + 1)[n] == s[n]);
        assert(spaced[n] == ' ');
        if n < first.len() {
            assert(s[n] == first[n]);
        } else if n > first.len() {
            assert(s.take(n + 1)[first.len() as int] == s[first.len() as int]);
            assert(spaced[first.len() as int] == article[first.len() as int]);
        }
        assert(first =~= article) by {
            assert forall|i: int| 0 <= i < n implies first[i] == article[i] by {
                assert(s.take(n + 1)[i] == s[i]);
                assert(spaced[i] == article[i]);
            }
        }
    }
    if model::starts_with(second, spaced) {
        assert(second.take(n + 1)[n] == second[n]);
        assert(spaced[n] == ' ');
    }
}

/// A name has at most five words.
pub proof fn names_have_at_most_five_words(text: Seq<char>)
    ensures
        classify::leading_name(text) matches Some(name) ==> 1 <= model::words(name).len() <= 5,
{
    let after = model::trim_start(text, CharClass::NameLead);
    let phrase = model::trim(after.take(classify::name_end(after)), CharClass::Whitespace);
    let all = model::words(classify::strip_articles(phrase, 3));
    let some = classify::at_most(all, 5);
    lemma_words_are_words(classify::strip_articles(phrase, 3));
    assert forall|i: int| 0 <= i < some.len() implies texts::is_word(#[trigger] some[i]) by {
        assert(texts::is_word(all[i]));
    }
    lemma_joined_words(some);
}

proof fn lemma_words_are_words(s: Seq<char>)
    ensures
        forall|i: int| 0 <= i < model::words(s).len() ==> texts::is_word(#[trigger] model::words(s)[i]),
{
    lemma_pieces_are_visible(s);
    lemma_nonempty_are_words(model::split(s, CharClass::Whitespace));
}

spec fn is_visible(s: Seq<char>) -> bool {
    forall|i: int| 0 <= i < s.len() ==> !model::is_whitespace(#[trigger] s[i])
}

proof fn lemma_pieces_are_visible(s: Seq<char>)
    ensures
        forall|i: int|
            0 <= i < model::split(s, CharClass::Whitespace).len() ==> is_visible(
                #[trigger] model::split(s, CharClass::Whitespace)[i],
            ),
    decreases s.len(),
{
    if s.len() > 0 {
        lemma_pieces_are_visible(s.drop_last());
        texts::lemma_some_piece(s.drop_last(), CharClass::Whitespace);
        let before = model::split(s.drop_last(), CharClass::Whitespace);
        assert(is_visible(before[before.len() - 1]));
    }
}

proof fn lemma_nonempty_are_words(pieces: Seq<Seq<char>>)
    requires
        forall|i: int| 0 <= i < pieces.len() ==> is_visible(#[trigger] pieces[i]),
    ensures
        forall|i: int|
            0 <= i < model::nonempty(pieces).len() ==> texts::is_word(
                #[trigger] model::nonempty(pieces)[i],
            ),
    decreases pieces.len(),
{
    if pieces.len() > 0 {
        assert forall|i: int| 0 <= i < pieces.drop_last().len() implies is_visible(
            #[trigger] pieces.drop_last()[i],
        ) by {
            assert(is_visible(pieces[i]));
        }
        lemma_nonempty_are_words(pieces.drop_last());
        assert(is_visible(pieces[pieces.len() - 1]));
        let before = model::nonempty(pieces.drop_last());
        assert forall|i: int| 0 <= i < model::nonempty(pieces).len() implies texts::is_word(
            #[trigger] model::nonempty(pieces)[i],
        ) by {
            if i < before.len() {
                assert(texts::is_word(before[i]));
            }
        }
    }
}

/// The words of joined words are those words.
proof fn lemma_joined_words(parts: Seq<Seq<char>>)
    requires
        forall|i: int| 0 <= i < parts.len() ==> texts::is_word(#[trigger] parts[i]),
    ensures
        parts.len() > 0 ==> model::words(model::join(parts, " "@)) == parts,
        parts.len() == 0 ==> model::join(parts, " "@).len() == 0,
    decreases parts.len(),
{
    reveal_strlit(" ");
    assert(" "@ =~= seq![' ']);
    if parts.len() == 1 {
        assert(texts::is_word(parts[0]));
        texts::words_are_words(parts[0]);
        assert(seq![parts[0]] =~= parts);
    } else if parts.len() > 1 {
        let rest = parts.drop_last();
        assert forall|i: int| 0 <= i < rest.len() implies texts::is_word(#[trigger] rest[i]) by {
            assert(texts::is_word(parts[i]));
        }
        lemma_joined_words(rest);
        assert(texts::is_word(parts[parts.len() - 1]));
        texts::words_are_words(parts.last());
        texts::words_are_those_of_the_parts(model::join(rest, " "@), parts.last());
        assert(model::join(rest, " "@) + " "@ + parts.last() =~= model::join(rest, " "@).push(' ')
            + parts.last());
        assert(rest + seq![parts.last()] =~= parts);
    }
}

// --- Origins -----------------------------------------------------------------

proof fn lemma_origin_from(text: Seq<char>, k: int, at: int)
    requires
        0 <= k <= at < classify::ORIGIN_MARKERS@.len(),
        forall|j: int|
            k <= j < at ==> !model::contains(text, (#[trigger] classify::ORIGIN_MARKERS@[j])@),
    ensures
        classify::origin_from(text, k) == classify::origin_from(text, at),
    decreases at - k,
{
    if k < at {
        assert(!model::contains(text, classify::ORIGIN_MARKERS@[k]@));
        lemma_origin_from(text, k + 1, at);
    }
}

/// The word behind a marker is the origin, where no marker of an earlier kind is in
/// the text.
pub proof fn origins_stand_behind_markers(k: int, w: Seq<char>)
    requires
        0 <= k < classify::ORIGIN_MARKERS@.len(),
        is_plain(w),
        forall|j: int|
            0 <= j < k ==> !model::contains(
                classify::ORIGIN_MARKERS@[k]@ + seq![' '] + w,
                (#[trigger] classify::ORIGIN_MARKERS@[j])@,
            ),
    ensures
        classify::origin_in(classify::ORIGIN_MARKERS@[k]@ + seq![' '] + w) == Some(w),
{
    let p = classify::ORIGIN_MARKERS@[k]@;
    let text = p + seq![' '] + w;
    assert(text.subrange(0, 0int + p.len()) =~= p);
    assert(model::matches_at(text, p, 0));
    model::lemma_find(text, p, 0);
    assert(text.skip(0int + p.len()) =~= seq![' '] + w);
    names_end_at_stops(w, 0, Seq::empty());
    lemma_origin_from(text, 0, k);
}

/// A text that holds no marker names no origin.
pub proof fn without_markers_there_is_no_origin(text: Seq<char>)
    requires
        forall|j: int|
            0 <= j < classify::ORIGIN_MARKERS@.len() ==> !model::contains(
                text,
                (#[trigger] classify::ORIGIN_MARKERS@[j])@,
            ),
    ensures
        classify::origin_in(text) is None,
{
    let last = classify::ORIGIN_MARKERS@.len() - 1;
    lemma_origin_from(text, 0, last);
    assert(!model::contains(text, classify::ORIGIN_MARKERS@[last]@));
    assert(classify::origin_from(text, last + 1) is None);
}

// --- Claims ------------------------------------------------------------------

/// A text claims to compete exactly where it holds one of these phrases.
pub proof fn competitors_say_so(text: Seq<char>)
    ensures
        classify::claims_competitor(text) <==> {
            ||| model::contains(text, "drop-in replacement"@)
            ||| model::contains(text, "drop in replacement"@)
            ||| model::contains(text, "alternative to"@)
            ||| model::contains(text, "alternative for"@)
            ||| model::contains(text, "replacement for"@)
            ||| model::contains(text, "replacement of"@)
            ||| model::contains(text, "replaces "@)
            ||| model::contains(text, "successor to"@)
            ||| model::contains(text, "successor of"@)
            ||| model::contains(text, "in place of"@)
            ||| model::contains(text, "instead of"@)
            ||| model::contains(text, "compatible with"@)
            ||| model::contains(text, "clone of"@)
        },
{
    let t = classify::COMPETITOR@;
    assert(t[0]@ == "drop-in replacement"@ && t[1]@ == "drop in replacement"@ && t[2]@
        == "alternative to"@ && t[3]@ == "alternative for"@ && t[4]@ == "replacement for"@);
    assert(t[5]@ == "replacement of"@ && t[6]@ == "replaces "@ && t[7]@ == "successor to"@
        && t[8]@ == "successor of"@ && t[9]@ == "in place of"@);
    assert(t[10]@ == "instead of"@ && t[11]@ == "compatible with"@ && t[12]@ == "clone of"@);
}

/// A text claims a port of something else exactly where it holds one of these.
pub proof fn ports_say_so(text: Seq<char>)
    ensures
        classify::claims_external_port(text) <==> {
            ||| model::contains(text, "port of"@)
            ||| model::contains(text, "rust port of"@)
            ||| model::contains(text, "rust port"@)
            ||| model::contains(text, "ported to rust"@)
            ||| model::contains(text, "porting to rust"@)
            ||| model::contains(text, "reimplementation of"@)
            ||| model::contains(text, "reimplementation in rust"@)
            ||| model::contains(text, "reimplemented in rust"@)
            ||| model::contains(text, "reimplementing"@)
            ||| model::contains(text, "pure-rust port"@)
            ||| model::contains(text, "pure rust port"@)
        },
{
    let t = classify::EXTERNAL_PORT@;
    assert(t[0]@ == "port of"@ && t[1]@ == "rust port of"@ && t[2]@ == "rust port"@ && t[3]@
        == "ported to rust"@ && t[4]@ == "porting to rust"@ && t[5]@ == "reimplementation of"@);
    assert(t[6]@ == "reimplementation in rust"@ && t[7]@ == "reimplemented in rust"@ && t[8]@
        == "reimplementing"@ && t[9]@ == "pure-rust port"@ && t[10]@ == "pure rust port"@);
}

/// A text claims a rewrite in place exactly where it holds one of these, or says of
/// something that it is rewritten, ported or migrated.
pub proof fn rewrites_say_so(text: Seq<char>)
    ensures
        classify::claims_in_place(text) <==> {
            ||| model::contains(text, "rewrite of"@)
            ||| model::contains(text, "rewritten in rust"@)
            ||| model::contains(text, "rewrite in rust"@)
            ||| model::contains(text, "rewritten from"@)
            ||| model::contains(text, "translated to rust"@)
            ||| model::contains(text, "translation of"@)
            ||| model::contains(text, "now written in rust"@)
            ||| model::contains(text, "now in rust"@)
            ||| model::contains(text, "migrated to rust"@)
            ||| model::contains(text, "migration to rust"@)
            ||| model::contains(text, "migrating to rust"@)
            ||| classify::has_migration_verb(text)
        },
        classify::claims_targeted(text) <==> {
            ||| model::contains(text, "rewrite of"@)
            ||| model::contains(text, "rewritten from"@)
            ||| model::contains(text, "port of"@)
            ||| model::contains(text, "rust port of"@)
            ||| model::contains(text, "reimplementation of"@)
            ||| model::contains(text, "reimplementation in rust of"@)
            ||| model::contains(text, "translation of"@)
            ||| classify::has_migration_verb(text)
        },
{
    let t = classify::IN_PLACE@;
    assert(t[0]@ == "rewrite of"@ && t[1]@ == "rewritten in rust"@ && t[2]@ == "rewrite in rust"@
        && t[3]@ == "rewritten from"@ && t[4]@ == "translated to rust"@ && t[5]@
        == "translation of"@);
    assert(t[6]@ == "now written in rust"@ && t[7]@ == "now in rust"@ && t[8]@
        == "migrated to rust"@ && t[9]@ == "migration to rust"@ && t[10]@ == "migrating to rust"@);
    let u = classify::TARGETED@;
    assert(u[0]@ == "rewrite of"@ && u[1]@ == "rewritten from"@ && u[2]@ == "port of"@ && u[3]@
        == "rust port of"@ && u[4]@ == "reimplementation of"@ && u[5]@
        == "reimplementation in rust of"@ && u[6]@ == "translation of"@);
}

/// A text speaks of Rust's own interfaces exactly where it holds one of these.
pub proof fn interfaces_of_rust_are_noticed(text: Seq<char>)
    ensures
        classify::mentions_rust_api(text) <==> {
            ||| model::contains(text, "std::"@)
            ||| model::contains(text, "::"@)
            ||| model::contains(text, "#[derive"@)
            ||| model::contains(text, "derive("@)
            ||| model::contains(text, "assert_eq"@)
            ||| model::contains(text, "assert_ne"@)
            ||| model::contains(text, "rust's"@)
            ||| model::contains(text, "rust channel"@)
            ||| model::contains(text, "rust crate"@)
        },
{
    let t = classify::API_MARKERS@;
    assert(t[0]@ == "std::"@ && t[1]@ == "::"@ && t[2]@ == "#[derive"@ && t[3]@ == "derive("@
        && t[4]@ == "assert_eq"@ && t[5]@ == "assert_ne"@ && t[6]@ == "rust's"@ && t[7]@
        == "rust channel"@ && t[8]@ == "rust crate"@);
}

/// "rewrite X in rust", "port X to rust" and "migrate X to rust" name what they move,
/// whatever it is.
pub proof fn verbs_name_what_they_move(w: Seq<char>, rest: Seq<char>)
    requires
        is_plain(w),
        w != "in"@,
        w != "to"@,
    ensures
        classify::has_migration_verb("rewrite "@ + w + " in rust"@ + rest),
        classify::has_migration_verb("port "@ + w + " to rust"@ + rest),
        classify::has_migration_verb("migrate "@ + w + " to rust"@ + rest),
{
    let t = classify::MIGRATION_VERBS@;
    reveal_strlit("in rust");
    reveal_strlit("to rust");
    reveal_strlit(" in rust");
    reveal_strlit(" to rust");
    assert(" in rust"@ =~= seq![' '] + "in rust"@);
    assert(" to rust"@ =~= seq![' '] + "to rust"@);
    assert(t[0].0@ == "rewrite "@ && t[0].1@ == "in rust"@);
    assert(t[3].0@ == "port "@ && t[3].1@ == "to rust"@);
    assert(t[6].0@ == "migrate "@ && t[6].1@ == "to rust"@);
    lemma_verb("rewrite "@, w, "in rust"@, rest);
    lemma_verb("port "@, w, "to rust"@, rest);
    lemma_verb("migrate "@, w, "to rust"@, rest);
    assert("rewrite "@ + w + " in rust"@ + rest =~= "rewrite "@ + (w.push(' ') + "in rust"@
        + rest));
    assert("port "@ + w + " to rust"@ + rest =~= "port "@ + (w.push(' ') + "to rust"@ + rest));
    assert("migrate "@ + w + " to rust"@ + rest =~= "migrate "@ + (w.push(' ') + "to rust"@
        + rest));
}

proof fn lemma_verb(verb: Seq<char>, w: Seq<char>, end: Seq<char>, rest: Seq<char>)
    requires
        is_plain(w),
        w != "in"@,
        w != "to"@,
        end.len() == 7,
        end[0] != ' ' && end[1] != ' ' && end[2] == ' ' && end[3] == 'r',
        end[0] != 'r',
    ensures
        classify::verb_applies(verb + (w.push(' ') + end + rest), verb, end),
{
    let tail = w.push(' ') + end + rest;
    let text = verb + tail;
    let n = w.len() as int;
    assert(text.subrange(0, 0int + verb.len()) =~= verb);
    assert(model::matches_at(text, verb, 0));
    model::lemma_find(text, verb, 0);
    assert(text.skip(0int + verb.len()) =~= tail);
    assert(tail.subrange(n + 1, n + 1 + end.len()) =~= end);
    assert(model::matches_at(tail, end, n + 1));
    lemma_plain(w);
    assert forall|j: int| 0 <= j < n + 1 implies !model::matches_at(tail, end, j) by {
        if model::matches_at(tail, end, j) {
            let found = tail.subrange(j, j + end.len());
            assert(found[0] == tail[j]);
            assert(found[1] == tail[j + 1]);
            assert(found[2] == tail[j + 2]);
            assert(found[3] == tail[j + 3]);
            if j + 2 < n {
                assert(tail[j + 2] == w[j + 2]);
            } else if j + 2 == n {
                assert(tail[j + 3] == end[0]);
            } else if j + 1 == n {
                assert(tail[j + 1] == ' ');
            } else {
                assert(tail[j] == ' ');
            }
        }
    }
    model::lemma_find(tail, end, n + 1);
    assert(tail.take(n + 1) =~= w.push(' '));
    let spaced = w.push(' ');
    reveal(model::is_whitespace);
    assert(spaced[0] == w[0]);
    assert(!model::is_whitespace(w[0]));
    assert(spaced.drop_last() =~= w);
    assert(!model::is_whitespace(w[n - 1]));
    assert(model::trim_end(w, CharClass::Whitespace) == w);
    assert(model::trim(spaced, CharClass::Whitespace) == w);
}

// --- Tokens ------------------------------------------------------------------

proof fn lemma_keep_parts(a: Seq<Seq<char>>, b: Seq<Seq<char>>)
    ensures
        classify::keep_significant(a + b) == classify::keep_significant(a)
            + classify::keep_significant(b),
    decreases b.len(),
{
    if b.len() == 0 {
        assert(a + b =~= a);
        assert(classify::keep_significant(a) + classify::keep_significant(b)
            =~= classify::keep_significant(a));
    } else {
        lemma_keep_parts(a, b.drop_last());
        assert((a + b).drop_last() =~= a + b.drop_last());
        assert((a + b).last() == b.last());
        assert(classify::keep_significant(a + b) =~= classify::keep_significant(a)
            + classify::keep_significant(b));
    }
}

/// The tokens of two texts with a mark or a space between them are the tokens of the
/// one and then those of the other.
pub proof fn marks_separate_tokens(a: Seq<char>, c: char, b: Seq<char>)
    requires
        model::is_ascii(c),
        !model::is_ascii_alphanumeric(c),
    ensures
        classify::tokens_in(a.push(c) + b) == classify::tokens_in(a) + classify::tokens_in(b),
{
    reveal(model::is_alphanumeric);
    texts::pieces_are_those_of_the_parts(a, c, b, CharClass::NotAlphanumeric);
    lemma_keep_parts(
        model::split(a, CharClass::NotAlphanumeric),
        model::split(b, CharClass::NotAlphanumeric),
    );
}

proof fn lemma_one_token(w: Seq<char>)
    requires
        forall|i: int| 0 <= i < w.len() ==> model::is_alphanumeric(#[trigger] w[i]),
    ensures
        model::split(w, CharClass::NotAlphanumeric) == seq![w],
    decreases w.len(),
{
    if w.len() == 0 {
        assert(w =~= Seq::empty());
    } else {
        let rest = w.drop_last();
        assert forall|i: int| 0 <= i < rest.len() implies model::is_alphanumeric(
            #[trigger] rest[i],
        ) by {
            assert(model::is_alphanumeric(w[i]));
        }
        lemma_one_token(rest);
        assert(model::is_alphanumeric(w[w.len() - 1]));
        assert(rest.push(w.last()) =~= w);
        assert(seq![rest].drop_last().push(rest.push(w.last())) =~= seq![w]);
    }
}

/// A word of three bytes or more is a token of its own, unless it is a stopword;
/// shorter words, and stopwords such as these, are none.
pub proof fn words_are_tokens(w: Seq<char>)
    requires
        is_plain(w),
    ensures
        ({
            let stopword = w == "rust"@ || w == "rs"@ || w == "next"@ || w == "the"@ || w
                == "rewrite"@ || w == "port"@ || w == "cli"@ || w == "lib"@ || w == "tool"@;
            &&& model::utf8_len(w) < 3 || stopword ==> classify::tokens_in(w).len() == 0
            &&& model::utf8_len(w) >= 3 && !model::any_equal(w, classify::IDENTITY_STOPWORDS@)
                ==> classify::tokens_in(w) == seq![w]
        }),
{
    lemma_plain(w);
    lemma_one_token(w);
    assert(seq![w].drop_last() =~= Seq::empty());
    let none = classify::keep_significant(seq![w].drop_last());
    assert(none =~= Seq::empty());
    assert(none.push(w) =~= seq![w]);
    let t = classify::IDENTITY_STOPWORDS@;
    assert(t[0]@ == "rust"@ && t[1]@ == "rs"@ && t[2]@ == "next"@ && t[5]@ == "the"@ && t[10]@
        == "port"@ && t[11]@ == "rewrite"@ && t[22]@ == "lib"@ && t[25]@ == "cli"@ && t[28]@
        == "tool"@);
}

// --- Slugs -------------------------------------------------------------------

proof fn lemma_last_of_path(owner: Seq<char>, name: Seq<char>)
    requires
        log::lacks(name, '/'),
    ensures
        model::after_last(owner.push('/') + name, '/') == name,
{
    texts::pieces_are_those_of_the_parts(owner, '/', name, CharClass::Only('/'));
    log::lemma_one_piece(name, '/');
    let all = model::split(owner, CharClass::Only('/')) + seq![name];
    assert(all.last() == name);
}

/// The slug of a repository is its name without its owner and without a suffix that
/// speaks of Rust, in lower case; a name of letters and digits alone is its slug.
pub proof fn slugs_are_names_without_suffix(owner: Seq<char>, name: Seq<char>)
    requires
        is_plain(name),
    ensures
        classify::slug_of(owner.push('/') + name) == model::ascii_lowercase(name),
        model::utf8_len(model::ascii_lowercase(name)) >= 3 ==> {
            &&& classify::slug_of(owner.push('/') + (name + "-rs"@)) == model::ascii_lowercase(name)
            &&& classify::slug_of(owner.push('/') + (name + "-rust"@)) == model::ascii_lowercase(
                name,
            )
            &&& classify::slug_of(owner.push('/') + (name + "_rs"@)) == model::ascii_lowercase(name)
            &&& classify::slug_of(owner.push('/') + (name + "-ng"@)) == model::ascii_lowercase(name)
        },
{
    reveal_strlit("-rs");
    reveal_strlit("-rust");
    reveal_strlit("_rs");
    reveal_strlit("_rust");
    reveal_strlit("-next");
    reveal_strlit("-ng");
    reveal_strlit("-next-gen");
    lemma_plain(name);
    lemma_no_slash(name, Seq::empty());
    assert(name + Seq::empty() =~= name);
    lemma_no_slash(name, "-rs"@);
    lemma_no_slash(name, "-rust"@);
    lemma_no_slash(name, "_rs"@);
    lemma_no_slash(name, "-ng"@);
    lemma_last_of_path(owner, name);
    lemma_last_of_path(owner, name + "-rs"@);
    lemma_last_of_path(owner, name + "-rust"@);
    lemma_last_of_path(owner, name + "_rs"@);
    lemma_last_of_path(owner, name + "-ng"@);
    model::lemma_lowered_ascii(name);
    lemma_lowered_with(name, "-rs"@);
    lemma_lowered_with(name, "-rust"@);
    lemma_lowered_with(name, "_rs"@);
    lemma_lowered_with(name, "-ng"@);
    let low = model::ascii_lowercase(name);
    assert(is_plain(low)) by {
        assert forall|i: int| 0 <= i < low.len() implies model::is_ascii_alphanumeric(
            #[trigger] low[i],
        ) by {
            assert(model::is_ascii_alphanumeric(name[i]));
        }
    }
    reveal_with_fuel(classify::strip_slug, 8);
    let t = classify::SLUG_SUFFIXES@;
    assert forall|k: int| 0 <= k < t.len() implies !model::ends_with(low, (#[trigger] t[k])@) by {
        if model::ends_with(low, t[k]@) {
            assert(low.skip(low.len() - t[k]@.len())[0] == low[low.len() - t[k]@.len()]);
            assert(model::is_ascii_alphanumeric(low[low.len() - t[k]@.len()]));
        }
    }
    assert(classify::strip_slug(low, 0) == low);
    lemma_stripped(low, 0);
    lemma_stripped(low, 1);
    lemma_stripped(low, 2);
    lemma_stripped(low, 5);
    let (b, c, d) = (low + t[1]@, low + t[2]@, low + t[5]@);
    assert(b.last() == 't' && d.last() == 'g');
    lemma_other_end(b, t[0]@);
    lemma_third_last(c, t[0]@);
    lemma_third_last(c, t[1]@);
    lemma_other_end(c, t[1]@);
    lemma_other_end(d, t[0]@);
    lemma_other_end(d, t[1]@);
    lemma_other_end(d, t[2]@);
    lemma_other_end(d, t[3]@);
    lemma_other_end(d, t[4]@);
}

proof fn lemma_no_slash(name: Seq<char>, suffix: Seq<char>)
    requires
        is_plain(name),
        log::lacks(suffix, '/'),
    ensures
        log::lacks(name + suffix, '/'),
{
    assert forall|i: int| 0 <= i < (name + suffix).len() implies #[trigger] (name + suffix)[i]
        != '/' by {
        if i < name.len() {
            assert(model::is_ascii_alphanumeric(name[i]));
        } else {
            assert((name + suffix)[i] == suffix[i - name.len()]);
        }
    }
}

proof fn lemma_lowered_with(name: Seq<char>, suffix: Seq<char>)
    requires
        model::all_ascii(name),
        forall|i: int|
            0 <= i < suffix.len() ==> model::is_ascii(#[trigger] suffix[i]) && !('A' <= suffix[i]
                <= 'Z'),
    ensures
        model::lowercase(name + suffix) == model::ascii_lowercase(name) + suffix,
{
    assert forall|i: int| 0 <= i < (name + suffix).len() implies model::is_ascii(
        #[trigger] (name + suffix)[i],
    ) by {
        if i < name.len() {
            assert(model::is_ascii(name[i]));
        } else {
            assert(model::is_ascii(suffix[i - name.len()]));
        }
    }
    model::lemma_lowered_ascii(name + suffix);
    assert(model::ascii_lowercase(name + suffix) =~= model::ascii_lowercase(name) + suffix);
}

proof fn lemma_stripped(low: Seq<char>, k: int)
    requires
        0 <= k < classify::SLUG_SUFFIXES@.len(),
    ensures
        ({
            let suffix = classify::SLUG_SUFFIXES@[k]@;
            &&& model::ends_with(low + suffix, suffix)
            &&& (low + suffix).take((low + suffix).len() - suffix.len()) == low
        }),
{
    let suffix = classify::SLUG_SUFFIXES@[k]@;
    assert((low + suffix).skip((low + suffix).len() - suffix.len()) =~= suffix);
    assert((low + suffix).take((low + suffix).len() - suffix.len()) =~= low);
}

proof fn lemma_other_end(s: Seq<char>, suffix: Seq<char>)
    requires
        s.len() > 0,
        suffix.len() > 0,
    ensures
        s.last() != suffix.last() ==> !model::ends_with(s, suffix),
{
    if model::ends_with(s, suffix) {
        assert(s.skip(s.len() - suffix.len())[suffix.len() - 1] == s[s.len() - 1]);
    }
}

proof fn lemma_third_last(s: Seq<char>, suffix: Seq<char>)
    requires
        s.len() >= 3,
        suffix.len() >= 3,
    ensures
        s[s.len() - 3] != suffix[suffix.len() - 3] ==> !model::ends_with(s, suffix),
{
    if model::ends_with(s, suffix) {
        assert(s.skip(s.len() - suffix.len())[suffix.len() - 3] == s[s.len() - 3]);
    }
}

// --- Identity ----------------------------------------------------------------

/// Names match by their letters and digits whichever of them comes first, and a name
/// that is long enough matches itself.
pub proof fn compact_names_match_both_ways(a: Seq<char>, b: Seq<char>, min: nat)
    ensures
        classify::compact_match(a, b, min) == classify::compact_match(b, a, min),
        model::utf8_len(classify::compact(a)) >= min ==> classify::compact_match(a, a, min),
        classify::compact_match(a, b, min) ==> model::utf8_len(classify::compact(a)) >= min,
{
}

/// What says of the repository's own name that it is rewritten in Rust is that
/// product.
pub proof fn products_that_are_rewritten_are_themselves(candidate: Candidate, rest: Seq<char>)
    requires
        ({
            let slug = classify::slug_of(candidate.full_name@);
            &&& is_plain(slug)
            &&& !classify::is_filler(slug)
            &&& classify::all_text(candidate) == slug + " rewritten in rust"@ + rest
        }),
    ensures
        classify::is_same_product(candidate),
{
    let slug = classify::slug_of(candidate.full_name@);
    let text = classify::all_text(candidate);
    let p = " rewritten in rust"@;
    let n = slug.len() as int;
    reveal_strlit(" rewritten in rust");
    assert(classify::REWRITE_PHRASES@[0]@ == p);
    assert(text.subrange(n, n + p.len()) =~= p);
    assert(model::matches_at(text, p, n));
    lemma_plain(slug);
    assert forall|j: int| 0 <= j < n implies !model::matches_at(text, p, j) by {
        if model::matches_at(text, p, j) {
            assert(text.subrange(j, j + p.len())[0] == text[j]);
            assert(text[j] == slug[j]);
        }
    }
    model::lemma_find(text, p, n);
    assert(text.take(n) =~= slug);
    let one = seq![slug];
    assert(classify::skip_fillers(one) == one) by {
        assert(one[0] == slug);
    }
    assert(classify::trimmed_words(one) =~= one);
    assert(one.drop_last() =~= Seq::empty());
    assert(model::nonempty(one.drop_last()) =~= Seq::empty());
    assert(model::nonempty(one) =~= one);
    assert(model::join(one, " "@) == slug);
    assert(classify::product_at_end(slug) == Some(slug));
    assert(classify::product_before(text, 0) == Some(slug));
    lemma_without_spaces(slug);
    assert(slug.subrange(0, 0int + slug.len()) =~= slug);
    assert(model::matches_at(slug, slug, 0));
}

proof fn lemma_without_spaces(w: Seq<char>)
    requires
        log::lacks(w, ' '),
    ensures
        model::replace_char(w, ' ', "-"@) == w,
    decreases w.len(),
{
    if w.len() > 0 {
        let rest = w.drop_last();
        assert forall|i: int| 0 <= i < rest.len() implies #[trigger] rest[i] != ' ' by {
            assert(w[i] != ' ');
        }
        lemma_without_spaces(rest);
        assert(w[w.len() - 1] != ' ');
        assert(rest.push(w.last()) =~= w);
    }
}

/// Words that name no product are passed over before a phrase of rewriting: what
/// follows them is the product.
pub proof fn fillers_are_passed_over(filler: Seq<char>, w: Seq<char>)
    requires
        is_plain(filler),
        is_plain(w),
        filler == "high"@ || filler == "fast"@ || filler == "experimental"@ || filler == "next"@
            || filler == "the"@ || filler == "new"@,
        !classify::is_filler(w),
    ensures
        classify::product_at_end(filler.push(' ') + w) == Some(w),
        classify::product_at_end(w) == Some(w),
{
    lemma_plain(filler);
    lemma_plain(w);
    texts::words_are_those_of_the_parts(filler, w);
    let both = seq![filler] + seq![w];
    let f = classify::FILLER_WORDS@;
    let s = classify::IDENTITY_STOPWORDS@;
    assert(f[0]@ == "high"@ && f[3]@ == "fast"@ && f[4]@ == "experimental"@ && f[6]@ == "next"@);
    assert(s[5]@ == "the"@ && s[4]@ == "new"@);
    assert(classify::is_filler(filler));
    assert(both[0] == filler);
    assert(both.drop_first() =~= seq![w]);
    reveal_with_fuel(classify::skip_fillers, 3);
    let one = seq![w];
    assert(one[0] == w);
    assert(classify::skip_fillers(one) == one);
    assert(classify::skip_fillers(both) == one);
    assert(classify::trimmed_words(one) =~= one);
    assert(one.drop_last() =~= Seq::empty());
    assert(model::nonempty(one.drop_last()) =~= Seq::empty());
    assert(model::nonempty(one) =~= one);
    assert(model::join(one, " "@) == w);
}

/// A phrase without stops and without an article is the name, up to its fifth word.
pub proof fn names_are_kept_up_to_five_words(phrase: Seq<char>)
    requires
        phrase.len() > 0,
        !CharClass::NameLead.has(phrase[0]),
        !model::is_whitespace(phrase.last()),
        forall|j: int| 0 <= j < phrase.len() ==> !classify::stop_at(phrase, j),
        !model::starts_with(phrase, "the "@),
        !model::starts_with(phrase, "a "@),
        !model::starts_with(phrase, "an "@),
        model::words(phrase).len() > 0,
    ensures
        ({
            let words = model::words(phrase);
            let name = classify::leading_name(phrase);
            &&& name is Some
            &&& words.len() <= 5 ==> model::words(name->0) == words
            &&& words.len() > 5 ==> model::words(name->0) == words.take(5)
        }),
{
    let n = phrase.len() as int;
    lemma_name_end(phrase, n);
    assert(phrase.take(n) =~= phrase);
    assert(model::trim(phrase, CharClass::Whitespace) == phrase);
    let t = classify::ARTICLES@;
    assert(t[0]@ == "the "@ && t[1]@ == "a "@ && t[2]@ == "an "@);
    reveal_with_fuel(classify::strip_articles, 4);
    assert(classify::strip_articles(phrase, 3) == phrase);
    let all = model::words(phrase);
    let some = classify::at_most(all, 5);
    lemma_words_are_words(phrase);
    assert forall|i: int| 0 <= i < some.len() implies texts::is_word(#[trigger] some[i]) by {
        assert(texts::is_word(all[i]));
    }
    lemma_joined_words(some);
    assert(model::join(some, " "@).len() > 0) by {
        if model::join(some, " "@).len() == 0 {
            let none = model::join(some, " "@);
            assert(none =~= Seq::empty());
            assert(model::split(none, CharClass::Whitespace) =~= seq![Seq::<char>::empty()]);
            let one = seq![Seq::<char>::empty()];
            assert(one.drop_last() =~= Seq::empty());
            assert(model::nonempty(one.drop_last()).len() == 0);
            assert(model::words(none).len() == 0);
        }
    }
}

proof fn lemma_all_nonempty(parts: Seq<Seq<char>>)
    requires
        forall|i: int| 0 <= i < parts.len() ==> (#[trigger] parts[i]).len() > 0,
    ensures
        model::nonempty(parts) == parts,
    decreases parts.len(),
{
    if parts.len() > 0 {
        let rest = parts.drop_last();
        assert forall|i: int| 0 <= i < rest.len() implies (#[trigger] rest[i]).len() > 0 by {
            assert(parts[i].len() > 0);
        }
        lemma_all_nonempty(rest);
        assert(parts[parts.len() - 1].len() > 0);
        assert(rest.push(parts.last()) =~= parts);
    }
}

/// The last words before a phrase of rewriting name the product, four of them at most.
pub proof fn products_have_at_most_four_words(parts: Seq<Seq<char>>)
    requires
        parts.len() > 0,
        forall|i: int|
            0 <= i < parts.len() ==> is_plain(#[trigger] parts[i]) && !classify::is_filler(
                parts[i],
            ),
    ensures
        parts.len() <= 4 ==> classify::product_at_end(model::join(parts, " "@)) == Some(
            model::join(parts, " "@),
        ),
        parts.len() > 4 ==> classify::product_at_end(model::join(parts, " "@)) == Some(
            model::join(parts.skip(parts.len() - 4), " "@),
        ),
{
    assert forall|i: int| 0 <= i < parts.len() implies texts::is_word(#[trigger] parts[i]) by {
        assert(is_plain(parts[i]));
        lemma_plain(parts[i]);
    }
    lemma_joined_words(parts);
    let last = classify::at_most_last(parts, 4);
    assert forall|i: int| 0 <= i < last.len() implies is_plain(#[trigger] last[i])
        && !classify::is_filler(last[i]) && texts::is_word(last[i]) by {
        let k = if parts.len() > 4 {
            parts.len() - 4 + i
        } else {
            i
        };
        assert(last[i] == parts[k]);
        assert(is_plain(parts[k]));
        assert(texts::is_word(parts[k]));
    }
    assert(!classify::is_filler(last[0]));
    assert(classify::skip_fillers(last) == last);
    assert forall|i: int| 0 <= i < last.len() implies model::trim(
        #[trigger] last[i],
        CharClass::NotAlphanumericOrDash,
    ) == last[i] by {
        lemma_plain(last[i]);
    }
    assert(classify::trimmed_words(last) =~= last);
    assert forall|i: int| 0 <= i < last.len() implies (#[trigger] last[i]).len() > 0 by {
        assert(is_plain(last[i]));
    }
    lemma_all_nonempty(last);
    lemma_joined_words(last);
    let joined = model::join(last, " "@);
    assert(joined.len() > 0) by {
        if joined.len() == 0 {
            assert(joined =~= Seq::empty());
            assert(model::split(joined, CharClass::Whitespace) =~= seq![Seq::<char>::empty()]);
            let one = seq![Seq::<char>::empty()];
            assert(one.drop_last() =~= Seq::empty());
            assert(model::nonempty(one.drop_last()).len() == 0);
            assert(model::words(joined).len() == 0);
        }
    }
}

/// What says that it is a rewrite of its own name is that product.
pub proof fn rewrites_of_themselves_show_identity(candidate: Candidate, w: Seq<char>)
    requires
        is_plain(w),
        classify::all_text(candidate) == "rewrite of "@ + w || classify::all_text(candidate)
            == "rewritten from "@ + w,
        classify::overlap(
            classify::tokens_of(w),
            classify::tokens_of(classify::slug_of(candidate.full_name@)),
        ),
    ensures
        classify::is_same_product(candidate),
{
    let text = classify::all_text(candidate);
    let t = classify::SELF_REWRITE_MARKERS@;
    assert(t[0]@ == "rewrite of "@ && t[1]@ == "rewritten from "@);
    let k: int = if text == "rewrite of "@ + w {
        0
    } else {
        1
    };
    let p = t[k]@;
    assert(text == p + w);
    assert(text.subrange(0, 0int + p.len()) =~= p);
    assert(model::matches_at(text, p, 0));
    model::lemma_find(text, p, 0);
    assert(text.skip(0int + p.len()) =~= w);
    names_end_at_stops(w, 0, Seq::empty());
    assert(classify::marker_names(
        text,
        t[k]@,
        classify::tokens_of(classify::slug_of(candidate.full_name@)),
    ));
}

/// Letters and digits stay when a text is made compact, and marks between them go.
pub proof fn compact_texts_lack_marks(a: Seq<char>, c: char, w: Seq<char>)
    requires
        model::is_ascii(c),
        !model::is_ascii_alphanumeric(c),
        forall|i: int| 0 <= i < w.len() ==> model::is_ascii_alphanumeric(#[trigger] w[i]),
    ensures
        classify::compact(a.push(c) + w) == classify::compact(a) + w,
        classify::compact(w) == w,
    decreases w.len(),
{
    reveal(model::is_alphanumeric);
    if w.len() == 0 {
        assert(a.push(c) + w =~= a.push(c));
        assert(a.push(c).drop_last() =~= a);
        assert(classify::compact(a) + w =~= classify::compact(a));
    } else {
        let rest = w.drop_last();
        assert forall|i: int| 0 <= i < rest.len() implies model::is_ascii_alphanumeric(
            #[trigger] rest[i],
        ) by {
            assert(model::is_ascii_alphanumeric(w[i]));
        }
        compact_texts_lack_marks(a, c, rest);
        assert(model::is_ascii_alphanumeric(w[w.len() - 1]));
        assert((a.push(c) + w).drop_last() =~= a.push(c) + rest);
        assert((a.push(c) + w).last() == w.last());
        assert((classify::compact(a) + rest).push(w.last()) =~= classify::compact(a) + w);
        assert(rest.push(w.last()) =~= w);
    }
}

} // verus!
