//! Language-composition analysis.
//!
//! The byte breakdown of a repository by language is a cheap, reliable proxy
//! for "is this actually a Rust codebase, and what did it displace?" without
//! having to walk commit history.

use crate::double;
use crate::double::Double;
use crate::laws::numbers;
use crate::rounding;
use crate::sums;
use crate::text;
use crate::text_model as model;
use crate::types::Candidate;
use vstd::prelude::*;

verus! {

/// Minimum share of total bytes, in percent, that a non-Rust language must hold
/// to count as the displaced original: 12.
pub const MIN_ORIGINAL_LANGUAGE_PCT: u64 = 0x4028_0000_0000_0000;

/// Languages that are never evidence of a prior shipping application (build
/// files, shell glue, docs tooling).
pub const NOISE_LANGUAGES: [&'static str; 15] = [
    "makefile",
    "cmake",
    "shell",
    "dockerfile",
    "nix",
    "html",
    "css",
    "scss",
    "less",
    "markdown",
    "tex",
    "batchfile",
    "powershell",
    "procfile",
    "jupyter notebook",
];

/// `lang` is in the table of noise languages, whatever its case.
pub open spec fn is_noise(lang: Seq<char>) -> bool {
    exists|k: int|
        0 <= k < NOISE_LANGUAGES@.len() && model::eq_ignore_ascii_case(
            lang,
            (#[trigger] NOISE_LANGUAGES@[k])@,
        )
}

/// True when `lang` is a real application language that could have hosted a
/// shipping product before a move to Rust (C, JS, Go, … — not Makefile).
pub fn is_real_application_language(lang: &str) -> (r: bool)
    ensures
        r == !is_noise(lang@),
{
    let mut k: usize = 0;
    while k < NOISE_LANGUAGES.len()
        invariant
            k <= NOISE_LANGUAGES@.len(),
            forall|j: int|
                0 <= j < k ==> !model::eq_ignore_ascii_case(
                    lang@,
                    (#[trigger] NOISE_LANGUAGES@[j])@,
                ),
        decreases NOISE_LANGUAGES@.len() - k,
    {
        if text::eq_ignore_ascii_case(lang, NOISE_LANGUAGES[k]) {
            return false;
        }
        k += 1;
    }
    true
}

/// `lang` names Rust, whatever its case.
pub open spec fn is_rust(lang: Seq<char>) -> bool {
    model::eq_ignore_ascii_case(lang, "rust"@)
}

/// Whether `lang` names Rust, whatever its case.
pub fn names_rust(lang: &str) -> (r: bool)
    ensures
        r == is_rust(lang@),
{
    text::eq_ignore_ascii_case(lang, "rust")
}

/// The outcome of analyzing a repository's language byte-breakdown.
#[derive(Debug)]
pub struct LanguageAnalysis {
    /// Rust share of the codebase in the range 0.0 - 100.0.
    pub rust_percentage: Double,
    /// Largest non-Rust language, treated as the displaced/original language.
    pub original_language: Option<String>,
    /// True when Rust is the single largest language in the repo.
    pub rust_is_primary: bool,
}

impl Clone for LanguageAnalysis {
    fn clone(&self) -> (r: Self)
        ensures
            r == *self,
    {
        LanguageAnalysis {
            rust_percentage: self.rust_percentage,
            original_language: self.original_language.clone(),
            rust_is_primary: self.rust_is_primary,
        }
    }
}

impl Default for LanguageAnalysis {
    fn default() -> (r: Self)
        ensures
            r.rust_percentage == (Double { bits: 0 }),
            r.original_language is None,
            !r.rust_is_primary,
    {
        LanguageAnalysis {
            rust_percentage: Double { bits: 0 },
            original_language: None,
            rust_is_primary: false,
        }
    }
}

/// The bytes of all languages together.
pub open spec fn total_bytes(languages: Seq<(String, u64)>) -> nat
    decreases languages.len(),
{
    if languages.len() == 0 {
        0
    } else {
        total_bytes(languages.drop_last()) + languages.last().1 as nat
    }
}

/// The bytes of the first entry that names Rust.
pub open spec fn rust_bytes(languages: Seq<(String, u64)>) -> u64
    decreases languages.len(),
{
    if languages.len() == 0 {
        0
    } else if is_rust(languages[0].0@) {
        languages[0].1
    } else {
        rust_bytes(languages.drop_first())
    }
}

/// Rust has more bytes than any other language.
pub open spec fn is_rust_primary(languages: Seq<(String, u64)>) -> bool {
    forall|j: int|
        0 <= j < languages.len() && !is_rust((#[trigger] languages[j]).0@) ==> languages[j].1
            < rust_bytes(languages)
}

/// A language that Rust can have displaced.
pub open spec fn displaceable(lang: Seq<char>) -> bool {
    !is_rust(lang) && !is_noise(lang)
}

/// Entry `i` is the largest displaceable language, the last one of equals.
pub open spec fn is_largest(languages: Seq<(String, u64)>, i: int) -> bool {
    &&& 0 <= i < languages.len()
    &&& displaceable(languages[i].0@)
    &&& forall|j: int|
        0 <= j < languages.len() && displaceable((#[trigger] languages[j]).0@) ==> {
            &&& languages[j].1 <= languages[i].1
            &&& j > i ==> languages[j].1 < languages[i].1
        }
}

/// Entry `i` holds a meaningful share of the repository.
pub open spec fn is_substantial(languages: Seq<(String, u64)>, i: int) -> bool {
    double::percent(languages[i].1 as int, total_bytes(languages) as int).at_least(
        Double { bits: MIN_ORIGINAL_LANGUAGE_PCT },
    )
}

/// The displaced language: the largest displaceable one, if substantial.
pub open spec fn displaced_language(languages: Seq<(String, u64)>) -> Option<Seq<char>> {
    if exists|i: int| is_largest(languages, i) && is_substantial(languages, i) {
        let i = choose|i: int| is_largest(languages, i) && is_substantial(languages, i);
        Some(languages[i].0@)
    } else {
        None
    }
}

fn sum_bytes(languages: &Vec<(String, u64)>) -> (r: u128)
    ensures
        r == total_bytes(languages@),
        r <= languages@.len() * u64::MAX,
{
    let n: usize = languages.len();
    let mut total: u128 = 0;
    let mut i: usize = 0;
    assert(total_bytes(languages@.take(0)) == 0);
    while i < n
        invariant
            n == languages@.len(),
            i <= n,
            total == total_bytes(languages@.take(i as int)),
            total <= i * u64::MAX,
        decreases n - i,
    {
        assert(languages@.take(i + 1).drop_last() =~= languages@.take(i as int));
        proof {
            sums::lemma_room(i, total as int);
        }
        total = total + languages[i].1 as u128;
        i += 1;
    }
    assert(languages@.take(languages@.len() as int) =~= languages@);
    total
}

fn find_rust_bytes(languages: &Vec<(String, u64)>) -> (r: u64)
    ensures
        r == rust_bytes(languages@),
{
    let mut i: usize = 0;
    assert(languages@.skip(0) =~= languages@);
    while i < languages.len()
        invariant
            i <= languages@.len(),
            rust_bytes(languages@) == rust_bytes(languages@.skip(i as int)),
        decreases languages@.len() - i,
    {
        assert(languages@.skip(i as int)[0] == languages@[i as int]);
        assert(languages@.skip(i as int).drop_first() =~= languages@.skip(i + 1));
        if names_rust(languages[i].0.as_str()) {
            return languages[i].1;
        }
        i += 1;
    }
    0
}

/// Whether Rust, with these bytes, has more than any other language.
fn rust_leads(languages: &Vec<(String, u64)>, rust: u64) -> (r: bool)
    requires
        rust == rust_bytes(languages@),
    ensures
        r == is_rust_primary(languages@),
{
    let mut i: usize = 0;
    while i < languages.len()
        invariant
            i <= languages@.len(),
            rust == rust_bytes(languages@),
            forall|j: int|
                0 <= j < i && !is_rust((#[trigger] languages@[j]).0@) ==> languages@[j].1 < rust,
        decreases languages@.len() - i,
    {
        if !names_rust(languages[i].0.as_str()) && languages[i].1 >= rust {
            assert(!is_rust(languages@[i as int].0@));
            return false;
        }
        i += 1;
    }
    true
}

fn find_largest(languages: &Vec<(String, u64)>) -> (r: Option<usize>)
    ensures
        match r {
            Some(i) => is_largest(languages@, i as int),
            None => forall|i: int| !is_largest(languages@, i),
        },
{
    let mut best: Option<usize> = None;
    let mut i: usize = 0;
    while i < languages.len()
        invariant
            i <= languages@.len(),
            match best {
                Some(b) => {
                    &&& b < i
                    &&& displaceable(languages@[b as int].0@)
                    &&& forall|j: int|
                        0 <= j < i && displaceable((#[trigger] languages@[j]).0@) ==> {
                            &&& languages@[j].1 <= languages@[b as int].1
                            &&& j > b ==> languages@[j].1 < languages@[b as int].1
                        }
                },
                None => forall|j: int|
                    0 <= j < i ==> !displaceable((#[trigger] languages@[j]).0@),
            },
        decreases languages@.len() - i,
    {
        let name = languages[i].0.as_str();
        if !names_rust(name) && is_real_application_language(name) {
            match best {
                Some(b) => {
                    if languages[i].1 >= languages[b].1 {
                        best = Some(i);
                    }
                },
                None => {
                    best = Some(i);
                },
            }
        }
        i += 1;
    }
    best
}

/// Two entries cannot both be the largest.
proof fn lemma_largest_unique(languages: Seq<(String, u64)>, i: int, j: int)
    requires
        is_largest(languages, i),
        is_largest(languages, j),
    ensures
        i == j,
{
    assert(languages[i].1 <= languages[j].1);
    assert(languages[j].1 <= languages[i].1);
}

/// `a` is what the languages of a repository show.
pub open spec fn shows_languages(languages: Seq<(String, u64)>, a: LanguageAnalysis) -> bool {
    if total_bytes(languages) == 0 {
        &&& a.rust_percentage == (Double { bits: 0 })
        &&& a.original_language is None
        &&& !a.rust_is_primary
    } else {
        &&& a.rust_percentage == double::percent(
            rust_bytes(languages) as int,
            total_bytes(languages) as int,
        )
        &&& model::opt_view(a.original_language) == displaced_language(languages)
        &&& a.rust_is_primary == is_rust_primary(languages)
    }
}

/// Compute the Rust share and infer the displaced language for a candidate.
pub fn analyze(candidate: &Candidate) -> (r: LanguageAnalysis)
    ensures
        shows_languages(candidate.languages@, r),
        total_bytes(candidate.languages@) == 0 ==> {
            &&& r.rust_percentage == (Double { bits: 0 })
            &&& r.original_language is None
            &&& !r.rust_is_primary
        },
        total_bytes(candidate.languages@) > 0 ==> {
            &&& r.rust_percentage == double::percent(
                rust_bytes(candidate.languages@) as int,
                total_bytes(candidate.languages@) as int,
            )
            &&& model::opt_view(r.original_language) == displaced_language(candidate.languages@)
            &&& r.rust_is_primary == is_rust_primary(candidate.languages@)
        },
        r.rust_percentage.at_least(Double { bits: 0 }),
        (Double { bits: double::HUNDRED }).at_least(r.rust_percentage),
        r.original_language matches Some(lang) ==> displaceable(lang@),
        // In percent of all bytes, but for rounding.
        0 < total_bytes(candidate.languages@) <= u128::MAX ==> numbers::is_near(
            r.rust_percentage.count(),
            100 * rust_bytes(candidate.languages@) * rounding::unit(),
            total_bytes(candidate.languages@) as int,
            8,
        ),
{
    let total: u128 = sum_bytes(&candidate.languages);
    if total == 0 {
        return LanguageAnalysis::default();
    }
    let ghost languages = candidate.languages@;
    let rust: u64 = find_rust_bytes(&candidate.languages);
    proof {
        rust_is_part_of_the_whole(languages);
        double::percents_are_bounded(rust as int, total as int);
        numbers::percents_are_accurate(rust as int, total as int);
    }
    let rust_is_primary = rust_leads(&candidate.languages, rust);
    let mut original_language: Option<String> = None;
    match find_largest(&candidate.languages) {
        Some(i) => {
            let bytes: u64 = candidate.languages[i].1;
            if double::percentage(bytes as u128, total).is_at_least(
                Double { bits: MIN_ORIGINAL_LANGUAGE_PCT },
            ) {
                assert(is_largest(languages, i as int) && is_substantial(languages, i as int));
                proof {
                    let c = choose|c: int| is_largest(languages, c) && is_substantial(languages, c);
                    lemma_largest_unique(languages, c, i as int);
                }
                original_language = Some(candidate.languages[i].0.clone());
            } else {
                assert forall|c: int| is_largest(languages, c) implies !is_substantial(
                    languages,
                    c,
                ) by {
                    lemma_largest_unique(languages, c, i as int);
                }
            }
        },
        None => {},
    }
    LanguageAnalysis {
        rust_percentage: double::percentage(rust as u128, total),
        original_language,
        rust_is_primary,
    }
}

/// Rust has no more bytes than all languages together.
pub proof fn rust_is_part_of_the_whole(languages: Seq<(String, u64)>)
    ensures
        rust_bytes(languages) <= total_bytes(languages),
    decreases languages.len(),
{
    if languages.len() > 0 {
        rust_is_part_of_the_whole(languages.drop_first());
        lemma_total_from_front(languages);
    }
}

proof fn lemma_total_from_front(languages: Seq<(String, u64)>)
    requires
        languages.len() > 0,
    ensures
        total_bytes(languages) == languages[0].1 + total_bytes(languages.drop_first()),
    decreases languages.len(),
{
    let rest = languages.drop_first();
    if languages.len() == 1 {
        assert(languages.drop_last() =~= Seq::empty());
        assert(rest =~= Seq::empty());
    } else {
        lemma_total_from_front(languages.drop_last());
        assert(languages.drop_last().drop_first() =~= rest.drop_last());
    }
}

} // verus!
