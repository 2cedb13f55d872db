//! Laws of the language composition of a repository.

use crate::detect::commits;
use crate::detect::commits::LanguageAnalysis;
use crate::double;
use crate::double::Double;
use crate::laws::numbers;
use crate::rounding;
use crate::rounding::DENSE;
use crate::text_model as model;
use vstd::prelude::*;

verus! {

/// The whole is all languages together: each adds its bytes to it, whatever it is.
pub proof fn every_language_counts(languages: Seq<(String, u64)>, language: (String, u64))
    ensures
        commits::total_bytes(Seq::empty()) == 0,
        commits::total_bytes(languages.push(language)) == commits::total_bytes(languages)
            + language.1,
{
    assert(languages.push(language).drop_last() =~= languages);
}

/// Every language is part of the whole.
proof fn lemma_part_of_the_whole(languages: Seq<(String, u64)>, i: int)
    requires
        0 <= i < languages.len(),
    ensures
        languages[i].1 <= commits::total_bytes(languages),
    decreases languages.len(),
{
    if i < languages.len() - 1 {
        lemma_part_of_the_whole(languages.drop_last(), i);
        every_language_counts(languages.drop_last(), languages.last());
    }
    assert(languages.drop_last().push(languages.last()) =~= languages);
    every_language_counts(languages.drop_last(), languages.last());
}

/// A language that Rust can have displaced: neither Rust itself nor one of those
/// that are never an application.
pub open spec fn can_be_displaced(language: Seq<char>) -> bool {
    !model::eq_ignore_ascii_case(language, "rust"@) && !commits::is_noise(language)
}

/// Entry `i` has the most bytes of the languages that Rust can have displaced, and
/// more than any such entry behind it.
pub open spec fn leads(languages: Seq<(String, u64)>, i: int) -> bool {
    &&& 0 <= i < languages.len()
    &&& can_be_displaced(languages[i].0@)
    &&& forall|j: int|
        0 <= j < languages.len() && can_be_displaced((#[trigger] languages[j]).0@)
            ==> languages[j].1 <= languages[i].1 && (j > i ==> languages[j].1 < languages[i].1)
}

/// The language that is given as displaced leads those that can be, and holds
/// twelve percent of all bytes: exactly so of sizes up to many terabytes, and but
/// for rounding of any.
pub proof fn displaced_languages_hold_their_share(languages: Seq<(String, u64)>) -> (i: int)
    requires
        commits::displaced_language(languages) is Some,
        0 < commits::total_bytes(languages) <= u128::MAX,
    ensures
        leads(languages, i),
        commits::displaced_language(languages) == Some(languages[i].0@),
        commits::total_bytes(languages) < 0x1000_0000_0000 ==> 100 * languages[i].1 >= 12
            * commits::total_bytes(languages),
        (100 * languages[i].1) * (DENSE + 8) >= (12 * commits::total_bytes(languages)) * DENSE,
{
    let i = choose|i: int|
        commits::is_largest(languages, i) && commits::is_substantial(languages, i);
    let bytes = languages[i].1 as int;
    let total = commits::total_bytes(languages) as int;
    let one = rounding::unit();
    let k = DENSE as int;
    lemma_part_of_the_whole(languages, i);
    numbers::percents_are_accurate(bytes, total);
    numbers::lemma_twelve_percent();
    double::lemma_integer(12);
    double::lemma_units_of_one();
    let share = double::percent(bytes, total);
    let c = share.count();
    double::percents_are_bounded(bytes, total);
    rounding::lemma_units_grow(double::integer(12).magnitude(), share.magnitude());
    assert(c >= 12 * one);
    assert((12 * one * total) * k <= (c * total) * k) by (nonlinear_arith)
        requires
            c >= 12 * one,
            total > 0,
            k > 0,
    ;
    assert((12 * one * total) * k == ((12 * total) * k) * one && (k + 8) * (100 * bytes * one) == ((
    100 * bytes) * (k + 8)) * one && (k + 3) * (100 * bytes * one) == ((100 * bytes) * (k + 3))
        * one) by (nonlinear_arith);
    numbers::lemma_cancelled((12 * total) * k, (100 * bytes) * (k + 8), one);
    if total < 0x1000_0000_0000 {
        numbers::lemma_cancelled((12 * total) * k, (100 * bytes) * (k + 3), one);
        assert(100 * bytes >= 12 * total) by (nonlinear_arith)
            requires
                (12 * total) * k <= (100 * bytes) * (k + 3),
                0 <= bytes < 0x1000_0000_0000,
                k == 0x20_0000_0000_0000,
        ;
    }
    i
}

/// The language that leads those that can be displaced is given as displaced
/// wherever it holds twelve percent of all bytes, beyond rounding where they are
/// very many.
pub proof fn substantial_languages_are_displaced(languages: Seq<(String, u64)>, i: int)
    requires
        leads(languages, i),
        0 < commits::total_bytes(languages) <= u128::MAX,
        if commits::total_bytes(languages) < DENSE {
            100 * languages[i].1 >= 12 * commits::total_bytes(languages)
        } else {
            (100 * languages[i].1) * (DENSE - 8) >= (12 * commits::total_bytes(languages)) * DENSE
        },
    ensures
        commits::displaced_language(languages) == Some(languages[i].0@),
{
    let bytes = languages[i].1 as int;
    let total = commits::total_bytes(languages) as int;
    let one = rounding::unit();
    let k = DENSE as int;
    lemma_part_of_the_whole(languages, i);
    numbers::lemma_twelve_percent();
    double::lemma_integer(12);
    double::lemma_units_of_one();
    if total < DENSE {
        numbers::percents_keep_order(12, 100, bytes, total);
    } else {
        numbers::percents_are_accurate(bytes, total);
        double::percents_are_bounded(bytes, total);
        let share = double::percent(bytes, total);
        let c = share.count();
        assert((k - 8) * (100 * bytes * one) == ((100 * bytes) * (k - 8)) * one && ((12 * total) * k)
            * one == ((12 * one) * (total * k)) && (c * total) * k == c * (total * k))
            by (nonlinear_arith);
        numbers::lemma_scaled((12 * total) * k, (100 * bytes) * (k - 8), one);
        assert(total * k > 0) by (nonlinear_arith)
            requires
                total > 0,
                k > 0,
        ;
        numbers::lemma_cancelled(12 * one, c, total * k);
        if share.magnitude() < double::integer(12).magnitude() {
            rounding::lemma_units_grow(share.magnitude(), double::integer(12).magnitude());
        }
    }
    assert(commits::is_largest(languages, i));
    assert(commits::is_substantial(languages, i));
    let c = choose|c: int|
        commits::is_largest(languages, c) && commits::is_substantial(languages, c);
    assert(languages[c].1 <= languages[i].1 && languages[i].1 <= languages[c].1);
}

/// Where no language leads those that can be displaced, or the one that does holds
/// less than its share, none is given.
pub proof fn slivers_are_not_displaced(languages: Seq<(String, u64)>)
    requires
        0 < commits::total_bytes(languages) < 0x1000_0000_0000,
        forall|i: int| leads(languages, i) ==> 100 * (#[trigger] languages[i]).1 < 12
            * commits::total_bytes(languages),
    ensures
        commits::displaced_language(languages) is None,
{
    if commits::displaced_language(languages) is Some {
        let i = displaced_languages_hold_their_share(languages);
        assert(leads(languages, i));
    }
}

/// The bytes of Rust are those of the first entry that names it, whatever its case.
pub proof fn rust_is_found_by_name(languages: Seq<(String, u64)>, i: int)
    requires
        forall|j: int|
            0 <= j < i && j < languages.len() ==> !model::eq_ignore_ascii_case(
                (#[trigger] languages[j]).0@,
                "rust"@,
            ),
        0 <= i <= languages.len(),
    ensures
        i == languages.len() ==> commits::rust_bytes(languages) == 0,
        i < languages.len() && model::eq_ignore_ascii_case(languages[i].0@, "rust"@)
            ==> commits::rust_bytes(languages) == languages[i].1,
    decreases languages.len(),
{
    if languages.len() > 0 && i > 0 {
        let rest = languages.drop_first();
        assert forall|j: int| 0 <= j < i - 1 && j < rest.len() implies !model::eq_ignore_ascii_case(
            (#[trigger] rest[j]).0@,
            "rust"@,
        ) by {
            assert(rest[j] == languages[j + 1]);
        }
        assert(!model::eq_ignore_ascii_case(languages[0].0@, "rust"@));
        rust_is_found_by_name(rest, i - 1);
    }
}

/// Rust leads where every other language has fewer bytes, and only there.
pub proof fn rust_leads_where_it_has_the_most(languages: Seq<(String, u64)>, i: int)
    requires
        0 <= i < languages.len(),
        model::eq_ignore_ascii_case(languages[i].0@, "rust"@),
        forall|j: int|
            0 <= j < i ==> !model::eq_ignore_ascii_case((#[trigger] languages[j]).0@, "rust"@),
    ensures
        commits::is_rust_primary(languages) <==> forall|j: int|
            0 <= j < languages.len() && !model::eq_ignore_ascii_case(
                (#[trigger] languages[j]).0@,
                "rust"@,
            ) ==> languages[j].1 < languages[i].1,
{
    rust_is_found_by_name(languages, i);
}

/// Without Rust, another language leads.
pub proof fn rust_leads_nowhere_without_it(languages: Seq<(String, u64)>)
    requires
        languages.len() > 0,
        forall|j: int|
            0 <= j < languages.len() ==> !model::eq_ignore_ascii_case(
                (#[trigger] languages[j]).0@,
                "rust"@,
            ),
    ensures
        !commits::is_rust_primary(languages),
{
    rust_is_found_by_name(languages, languages.len() as int);
    assert(!model::eq_ignore_ascii_case(languages[0].0@, "rust"@));
}

/// What is never an application, whatever its case.
pub open spec fn is_glue(language: Seq<char>) -> bool {
    ||| model::eq_ignore_ascii_case(language, "makefile"@)
    ||| model::eq_ignore_ascii_case(language, "cmake"@)
    ||| model::eq_ignore_ascii_case(language, "shell"@)
    ||| model::eq_ignore_ascii_case(language, "dockerfile"@)
    ||| model::eq_ignore_ascii_case(language, "nix"@)
    ||| model::eq_ignore_ascii_case(language, "html"@)
    ||| model::eq_ignore_ascii_case(language, "css"@)
    ||| model::eq_ignore_ascii_case(language, "scss"@)
    ||| model::eq_ignore_ascii_case(language, "less"@)
    ||| model::eq_ignore_ascii_case(language, "markdown"@)
    ||| model::eq_ignore_ascii_case(language, "tex"@)
    ||| model::eq_ignore_ascii_case(language, "batchfile"@)
    ||| model::eq_ignore_ascii_case(language, "powershell"@)
    ||| model::eq_ignore_ascii_case(language, "procfile"@)
    ||| model::eq_ignore_ascii_case(language, "jupyter notebook"@)
}

/// Build files, shell glue and documents are noise, and nothing else is.
pub proof fn glue_is_noise(language: Seq<char>)
    ensures
        commits::is_noise(language) == is_glue(language),
{
    let table = commits::NOISE_LANGUAGES@;
    assert(table[0]@ == "makefile"@ && table[1]@ == "cmake"@ && table[2]@ == "shell"@ && table[3]@
        == "dockerfile"@ && table[4]@ == "nix"@ && table[5]@ == "html"@ && table[6]@ == "css"@
        && table[7]@ == "scss"@ && table[8]@ == "less"@ && table[9]@ == "markdown"@ && table[10]@
        == "tex"@ && table[11]@ == "batchfile"@ && table[12]@ == "powershell"@ && table[13]@
        == "procfile"@ && table[14]@ == "jupyter notebook"@);
}

/// The share of Rust is that of its bytes in the bytes of all languages, noise with
/// them, but for rounding; of no bytes there is no share, no lead and no origin.
pub proof fn rust_is_measured_against_all_bytes(
    languages: Seq<(String, u64)>,
    a: LanguageAnalysis,
)
    requires
        commits::shows_languages(languages, a),
        commits::total_bytes(languages) <= u128::MAX,
    ensures
        commits::total_bytes(languages) > 0 ==> numbers::is_near(
            a.rust_percentage.count(),
            100 * commits::rust_bytes(languages) * rounding::unit(),
            commits::total_bytes(languages) as int,
            8,
        ),
        commits::total_bytes(languages) == 0 ==> a.rust_percentage.count() == 0
            && a.original_language is None && !a.rust_is_primary,
{
    assert(rounding::units(0) == 0);
    if commits::total_bytes(languages) > 0 {
        commits::rust_is_part_of_the_whole(languages);
        numbers::percents_are_accurate(
            commits::rust_bytes(languages) as int,
            commits::total_bytes(languages) as int,
        );
    }
}

/// What an analysis names as displaced is what its languages displaced, and Rust leads
/// where it has the most bytes.
pub proof fn analyses_name_what_was_displaced(
    languages: Seq<(String, u64)>,
    a: LanguageAnalysis,
    i: int,
)
    requires
        commits::shows_languages(languages, a),
        leads(languages, i),
        0 < commits::total_bytes(languages) < 0x1000_0000_0000,
    ensures
        100 * languages[i].1 >= 12 * commits::total_bytes(languages) ==> model::opt_view(
            a.original_language,
        ) == Some(languages[i].0@),
        a.rust_is_primary ==> languages[i].1 < commits::rust_bytes(languages),
{
    if 100 * languages[i].1 >= 12 * commits::total_bytes(languages) {
        substantial_languages_are_displaced(languages, i);
    }
}

} // verus!
