//! Curated exemplar rewrite repositories — priority targets for discovery and
//! macro-commit enrichment.

use crate::double;
use crate::double::Double;
use crate::rounding;
use crate::text;
use crate::text_model as model;
use crate::text_model::CharClass;
use vstd::prelude::*;

verus! {

/// A repository link or slug as a slug: without white space around it, without
/// the site's address before it and slashes behind it, in lower case.
pub open spec fn slug(s: Seq<char>) -> Seq<char> {
    model::lowercase(repository_path(s))
}

/// `owner/repo`, as it is written in a link or on its own.
pub open spec fn repository_path(s: Seq<char>) -> Seq<char> {
    let trimmed = model::trim(s, CharClass::Whitespace);
    let bare = model::trim_start_text(
        model::trim_start_text(trimmed, "https://github.com/"@),
        "http://github.com/"@,
    );
    model::trim_end(bare, CharClass::Only('/'))
}

/// `owner/repo`, as it is written in a link or on its own.
pub fn repo_path<'a>(s: &'a str) -> (r: &'a str)
    ensures
        r@ == repository_path(s@),
{
    let trimmed = text::trim(s, CharClass::Whitespace);
    let bare = text::trim_start_text(trimmed, "https://github.com/");
    let bare = text::trim_start_text(bare, "http://github.com/");
    text::trim_end(bare, CharClass::Only('/'))
}

/// A normalized `owner/repo` slug (lowercase owner and name).
pub fn normalize_slug(s: &str) -> (r: String)
    ensures
        r@ == slug(s@),
{
    repo_path(s).to_lowercase()
}

/// What a line of a list says, comments aside.
pub open spec fn line_content(line: Seq<char>) -> Seq<char> {
    model::trim(model::before_first(line, '#'), CharClass::Whitespace)
}

/// What a line of a list says, comments aside.
pub fn content_of_line(line: &str) -> (r: String)
    ensures
        r@ == line_content(line@),
{
    let before = text::before_first(line, '#');
    text::trim(before.as_str(), CharClass::Whitespace).to_owned()
}

/// The slugs of a list's lines: one per line, each once, in the order in which
/// they come first.
pub open spec fn slugs_in(lines: Seq<Seq<char>>) -> Seq<Seq<char>>
    decreases lines.len(),
{
    if lines.len() == 0 {
        Seq::empty()
    } else {
        let before = slugs_in(lines.drop_last());
        let content = line_content(lines.last());
        if content.len() == 0 || before.contains(slug(content)) {
            before
        } else {
            before.push(slug(content))
        }
    }
}

/// Whether a list holds a text.
pub fn list_contains(list: &Vec<String>, s: &str) -> (r: bool)
    ensures
        r == model::views(list@).contains(s@),
{
    let ghost views = model::views(list@);
    let mut i: usize = 0;
    while i < list.len()
        invariant
            i <= list@.len(),
            views == model::views(list@),
            forall|j: int| 0 <= j < i ==> (#[trigger] views[j]) != s@,
        decreases list@.len() - i,
    {
        if text::equal(list[i].as_str(), s) {
            assert(views[i as int] == s@);
            return true;
        }
        i += 1;
    }
    false
}

/// Parse exemplar slugs (`owner/repo` per line, `#` comments).
pub fn parse_lines(raw: &str) -> (r: Vec<String>)
    ensures
        model::views(r@) == slugs_in(model::lines(raw@)),
{
    let lines = text::lines(raw);
    let ghost all = model::lines(raw@);
    let mut out: Vec<String> = Vec::new();
    let mut i: usize = 0;
    assert(model::views(out@) =~= slugs_in(all.take(0)));
    while i < lines.len()
        invariant
            i <= lines@.len(),
            all == model::views(lines@),
            model::views(out@) == slugs_in(all.take(i as int)),
        decreases lines@.len() - i,
    {
        assert(all.take(i + 1).drop_last() =~= all.take(i as int));
        assert(all.take(i + 1).last() == lines@[i as int]@);
        let line = content_of_line(lines[i].as_str());
        if !line.as_str().is_empty() {
            let name = normalize_slug(line.as_str());
            if !list_contains(&out, name.as_str()) {
                let ghost held = out@;
                let ghost view = name@;
                out.push(name);
                assert(model::views(out@) =~= model::views(held).push(view));
            }
        }
        i += 1;
    }
    assert(all.take(all.len() as int) =~= all);
    out
}

/// True when `repo_url` or `owner/name` matches a known exemplar.
pub fn is_exemplar(repo_url: &str, set: &Vec<String>) -> (r: bool)
    ensures
        r == model::views(set@).contains(slug(repo_url@)),
{
    let name = normalize_slug(repo_url);
    list_contains(set, name.as_str())
}

/// What a confidence between zero and one is short of one, in millionths.
pub open spec fn doubt(confidence: Double) -> Double {
    double::product(
        double::difference(Double { bits: double::ONE }, double::clamped(confidence)),
        Double { bits: double::MILLION },
    )
}

/// The key by which projects are backfilled; lower comes sooner.
pub open spec fn priority(
    repo_url: Seq<char>,
    stars: u64,
    confidence: Double,
    exemplars: Seq<Seq<char>>,
) -> (u8, u64, u64) {
    (
        if exemplars.contains(slug(repo_url)) {
            0
        } else {
            1
        },
        (u64::MAX - stars) as u64,
        double::truncated(doubt(confidence)) as u64,
    )
}

/// One key is lower than another.
pub open spec fn is_lower(a: (u8, u64, u64), b: (u8, u64, u64)) -> bool {
    a.0 < b.0 || a.0 == b.0 && (a.1 < b.1 || a.1 == b.1 && a.2 < b.2)
}

/// Priority key for backfill ordering (lower = sooner). Exemplars first, then
/// high-star high-confidence repos.
pub fn backfill_priority(
    repo_url: &str,
    stars: u64,
    confidence: Double,
    exemplars: &Vec<String>,
) -> (r: (u8, u64, u64))
    ensures
        r == priority(repo_url@, stars, confidence, model::views(exemplars@)),
{
    let tier: u8 = if is_exemplar(repo_url, exemplars) {
        0
    } else {
        1
    };
    // Inverted so that ascending order on this tuple = exemplars, then highest
    // stars, then highest confidence first.
    let short = double::minus(Double { bits: double::ONE }, double::clamp(confidence));
    let key: u64 = double::truncate(double::times(short, Double { bits: double::MILLION }));
    proof {
        lemma_doubt_is_bounded(confidence);
    }
    (tier, u64::MAX - stars, key)
}

/// What numbers between zero and one are short of one.
proof fn lemma_short(x: Double)
    requires
        double::is_fraction(x),
    ensures
        double::difference(Double { bits: double::ONE }, x) == double::made(
            false,
            rounding::nearest(rounding::unit() - rounding::units(x.magnitude()), 1),
        ),
        0 <= rounding::units(x.magnitude()) <= rounding::unit(),
{
    double::lemma_units_of_one();
    rounding::lemma_units_grow(0, x.magnitude());
    rounding::lemma_units_grow(x.magnitude(), double::ONE as int);
    assert(rounding::nearest(0, 1) == 0);
}

/// More confidence is no more doubt.
proof fn lemma_doubt_falls(more: Double, less: Double)
    requires
        more.at_least(less),
    ensures
        doubt(less).at_least(doubt(more)),
        double::truncated(doubt(more)) <= double::truncated(doubt(less)) <= u64::MAX,
{
    let (x, y) = (double::clamped(more), double::clamped(less));
    let one = rounding::unit();
    let (u, v) = (rounding::units(x.magnitude()), rounding::units(y.magnitude()));
    lemma_short(x);
    lemma_short(y);
    rounding::lemma_units_grow(y.magnitude(), x.magnitude());
    rounding::lemma_nearest_grows(one - u, one - v, 1);
    rounding::lemma_nearest_grows(0, one - u, 1);
    rounding::lemma_nearest_grows(one - v, one, 1);
    double::lemma_units_of_one();
    rounding::lemma_nearest_exact(double::ONE as int);
    let (s, t) = (
        double::difference(Double { bits: double::ONE }, x),
        double::difference(Double { bits: double::ONE }, y),
    );
    let million = Double { bits: double::MILLION };
    double::products_keep_order(s, t, million);
    double::products_keep_order(t, Double { bits: double::ONE }, million);
    lemma_a_million();
    let (a, b) = (doubt(more), doubt(less));
    rounding::lemma_units_grow(a.magnitude(), b.magnitude());
    rounding::lemma_units_grow(b.magnitude(), double::MILLION as int);
    vstd::arithmetic::div_mod::lemma_div_is_ordered(a.count(), b.count(), one);
    vstd::arithmetic::div_mod::lemma_div_is_ordered(b.count(), 1_000_000 * one, one);
    vstd::arithmetic::div_mod::lemma_div_by_multiple(1_000_000, one);
}

/// A million times one is a million.
proof fn lemma_a_million()
    ensures
        double::product(Double { bits: double::ONE }, Double { bits: double::MILLION }) == (Double {
            bits: double::MILLION,
        }),
        rounding::units(double::MILLION as int) == 1_000_000 * rounding::unit(),
{
    let one = rounding::unit();
    vstd::arithmetic::power2::lemma2_to64_rest();
    vstd::arithmetic::power2::lemma2_to64();
    double::lemma_units_of_one();
    double::lemma_constant(double::MILLION, 0x1e_8480_0000_0000, 1041, 1_000_000, 33);
    double::lemma_integer(1_000_000);
    let m = rounding::units(double::MILLION as int);
    assert(one * m == m * one && 1 * one == one) by (nonlinear_arith);
    rounding::lemma_nearest_scales(m, 1, one);
    rounding::lemma_nearest_exact(double::MILLION as int);
}

/// Doubt counts at most a million.
proof fn lemma_doubt_is_bounded(confidence: Double)
    ensures
        0 <= double::truncated(doubt(confidence)) <= u64::MAX,
{
    if confidence.is_number() {
        lemma_doubt_falls(confidence, confidence);
        rounding::lemma_units_grow(0, doubt(confidence).magnitude());
        vstd::arithmetic::power2::lemma_pow2_pos(1074);
        if !doubt(confidence).is_negative() && doubt(confidence).is_finite() {
            vstd::arithmetic::div_mod::lemma_div_pos_is_pos(
                doubt(confidence).count(),
                rounding::unit(),
            );
        }
    }
}

/// No slug is listed twice.
pub proof fn slugs_are_distinct(lines: Seq<Seq<char>>)
    ensures
        slugs_in(lines).no_duplicates(),
    decreases lines.len(),
{
    if lines.len() > 0 {
        slugs_are_distinct(lines.drop_last());
    }
}

/// Every line with content has its slug in the list.
pub proof fn every_line_is_listed(lines: Seq<Seq<char>>, i: int)
    requires
        0 <= i < lines.len(),
        line_content(lines[i]).len() > 0,
    ensures
        slugs_in(lines).contains(slug(line_content(lines[i]))),
    decreases lines.len(),
{
    let before = slugs_in(lines.drop_last());
    if i < lines.len() - 1 {
        every_line_is_listed(lines.drop_last(), i);
        let k = choose|k: int|
            0 <= k < before.len() && before[k] == slug(line_content(lines[i]));
        assert(slugs_in(lines)[k] == before[k]);
    } else {
        let all = slugs_in(lines);
        if !before.contains(slug(line_content(lines[i]))) {
            assert(all[all.len() - 1] == slug(line_content(lines[i])));
        }
    }
}

/// An exemplar comes before every project that is none, whatever their stars
/// and confidence.
pub proof fn exemplars_come_first(
    exemplar: Seq<char>,
    other: Seq<char>,
    exemplars: Seq<Seq<char>>,
    stars: (u64, u64),
    confidences: (Double, Double),
)
    requires
        exemplars.contains(slug(exemplar)),
        !exemplars.contains(slug(other)),
    ensures
        is_lower(
            priority(exemplar, stars.0, confidences.0, exemplars),
            priority(other, stars.1, confidences.1, exemplars),
        ),
{
}

/// Of two exemplars, or two projects that are none, the one with more stars comes
/// first, whatever their confidence.
pub proof fn stars_come_next(
    first: Seq<char>,
    second: Seq<char>,
    exemplars: Seq<Seq<char>>,
    stars: (u64, u64),
    confidences: (Double, Double),
)
    requires
        exemplars.contains(slug(first)) == exemplars.contains(slug(second)),
        stars.0 > stars.1,
    ensures
        is_lower(
            priority(first, stars.0, confidences.0, exemplars),
            priority(second, stars.1, confidences.1, exemplars),
        ),
{
}

/// Of two exemplars, or two projects that are none, with as many stars, the one
/// with less confidence does not come first.
pub proof fn confidence_comes_last(
    first: Seq<char>,
    second: Seq<char>,
    exemplars: Seq<Seq<char>>,
    stars: u64,
    confidences: (Double, Double),
)
    requires
        exemplars.contains(slug(first)) == exemplars.contains(slug(second)),
        confidences.0.at_least(confidences.1),
    ensures
        !is_lower(
            priority(second, stars, confidences.1, exemplars),
            priority(first, stars, confidences.0, exemplars),
        ),
{
    lemma_doubt_falls(confidences.0, confidences.1);
    lemma_doubt_is_bounded(confidences.0);
    lemma_doubt_is_bounded(confidences.1);
}

} // verus!
