//! Laws of the languages of source files, and of the clones that they come from.

use crate::detect::git_history;
use crate::detect::git_history::{FetchEvent, FetchPlan, FetchStep};
use crate::laws::log;
use crate::laws::texts;
use crate::text_model as model;
use crate::text_model::CharClass;
use vstd::prelude::*;
use vstd::string::*;

verus! {

// --- Extensions --------------------------------------------------------------

/// The part of a text behind its last separator.
proof fn lemma_last_part(head: Seq<char>, c: char, tail: Seq<char>)
    requires
        log::lacks(tail, c),
    ensures
        model::after_last(head.push(c) + tail, c) == tail,
        model::after_last(tail, c) == tail,
{
    texts::pieces_are_those_of_the_parts(head, c, tail, CharClass::Only(c));
    log::lemma_one_piece(tail, c);
    let all = model::split(head, CharClass::Only(c)) + seq![tail];
    assert(all.last() == tail);
    assert(seq![tail].last() == tail);
}

/// A file is of the language of its extension, in whatever directory it lies and
/// whatever its name is.
pub proof fn extensions_decide(directory: Seq<char>, stem: Seq<char>, extension: Seq<char>)
    requires
        log::lacks(stem, '/'),
        log::lacks(extension, '/'),
        log::lacks(extension, '.'),
    ensures
        git_history::language_by_name(directory.push('/') + (stem.push('.') + extension))
            == git_history::language_by_name(stem.push('.') + extension),
        git_history::language_by_name(stem.push('.') + extension)
            == git_history::language_by_name(seq!['x', '.'] + extension),
{
    let file = stem.push('.') + extension;
    assert forall|i: int| 0 <= i < file.len() implies #[trigger] file[i] != '/' by {
        if i < stem.len() {
            assert(file[i] == stem[i]);
        } else if i > stem.len() {
            assert(file[i] == extension[i - stem.len() - 1]);
        }
    }
    lemma_last_part(directory, '/', file);
    lemma_last_part(stem, '.', extension);
    assert(file.len() > extension.len());
    let x = seq!['x'];
    let plain = x.push('.') + extension;
    assert(plain =~= seq!['x', '.'] + extension);
    assert forall|i: int| 0 <= i < plain.len() implies #[trigger] plain[i] != '/' by {
        if i > 1 {
            assert(plain[i] == extension[i - 2]);
        }
    }
    lemma_last_part(x, '/', plain);
    lemma_last_part(x, '.', extension);
}

proof fn lemma_lookup(
    table: Seq<(&'static str, &'static str)>,
    key: Seq<char>,
    from: int,
    at: int,
)
    requires
        0 <= from <= at < table.len(),
        forall|i: int| from <= i < at ==> (#[trigger] table[i]).0@ != key,
        table[at].0@ == key,
    ensures
        git_history::lookup_from(table, key, from) == Some(table[at].1@),
    decreases at - from,
{
    if from < at {
        lemma_lookup(table, key, from + 1, at);
    }
}

/// The language of a file with this extension.
pub open spec fn language_of_extension(extension: Seq<char>) -> Option<Seq<char>> {
    git_history::language_by_name(seq!['x', '.'] + extension)
}

/// The length of a text and its first characters.
spec fn start_of(s: Seq<char>) -> (nat, char, char, char) {
    (s.len(), s[0], s[1], s[2])
}

proof fn lemma_extension(extension: Seq<char>, at: int)
    requires
        log::lacks(extension, '/'),
        log::lacks(extension, '.'),
        0 <= at < git_history::EXTENSIONS@.len(),
        git_history::EXTENSIONS@[at].0@ == extension,
        forall|i: int|
            0 <= i < at ==> start_of((#[trigger] git_history::EXTENSIONS@[i]).0@) != start_of(
                extension,
            ),
    ensures
        language_of_extension(extension) == Some(git_history::EXTENSIONS@[at].1@),
{
    let x = seq!['x'];
    let plain = x.push('.') + extension;
    assert(plain =~= seq!['x', '.'] + extension);
    assert forall|i: int| 0 <= i < plain.len() implies #[trigger] plain[i] != '/' by {
        if i > 1 {
            assert(plain[i] == extension[i - 2]);
        }
    }
    lemma_last_part(x, '/', plain);
    lemma_last_part(x, '.', extension);
    lemma_lookup(git_history::EXTENSIONS@, extension, 0, at);
}

/// Sources of the languages that projects most often leave, and of Rust, are told by
/// their extensions.
pub proof fn common_sources_are_known()
    ensures
        language_of_extension("rs"@) == Some("Rust"@),
        language_of_extension("c"@) == Some("C"@),
        language_of_extension("h"@) == Some("C"@),
        language_of_extension("cc"@) == Some("C++"@),
        language_of_extension("cpp"@) == Some("C++"@),
        language_of_extension("hpp"@) == Some("C++"@),
        language_of_extension("py"@) == Some("Python"@),
        language_of_extension("js"@) == Some("JavaScript"@),
        language_of_extension("mjs"@) == Some("JavaScript"@),
        language_of_extension("ts"@) == Some("TypeScript"@),
        language_of_extension("tsx"@) == Some("TypeScript"@),
        language_of_extension("go"@) == Some("Go"@),
        language_of_extension("java"@) == Some("Java"@),
        language_of_extension("rb"@) == Some("Ruby"@),
{
    reveal_strlit("rs");
    reveal_strlit("c");
    reveal_strlit("h");
    reveal_strlit("cc");
    reveal_strlit("cpp");
    reveal_strlit("cxx");
    reveal_strlit("hpp");
    reveal_strlit("hh");
    reveal_strlit("hxx");
    reveal_strlit("py");
    reveal_strlit("pyi");
    reveal_strlit("pyx");
    reveal_strlit("js");
    reveal_strlit("mjs");
    reveal_strlit("cjs");
    reveal_strlit("ts");
    reveal_strlit("tsx");
    reveal_strlit("go");
    reveal_strlit("java");
    reveal_strlit("kt");
    reveal_strlit("kts");
    reveal_strlit("swift");
    reveal_strlit("rb");
    lemma_extension("rs"@, 0);
    lemma_extension("c"@, 1);
    lemma_extension("h"@, 2);
    lemma_extension("cc"@, 3);
    lemma_extension("cpp"@, 4);
    lemma_extension("hpp"@, 6);
    lemma_extension("py"@, 9);
    lemma_extension("js"@, 12);
    lemma_extension("mjs"@, 13);
    lemma_extension("ts"@, 15);
    lemma_extension("tsx"@, 16);
    lemma_extension("go"@, 17);
    lemma_extension("java"@, 18);
    lemma_extension("rb"@, 22);
}

// --- Ignored files -----------------------------------------------------------

proof fn lemma_lowered_parts(a: Seq<char>, b: Seq<char>)
    requires
        model::all_ascii(a),
        model::all_ascii(b),
    ensures
        model::all_ascii(a + b),
        model::lowercase(a + b) == model::ascii_lowercase(a) + model::ascii_lowercase(b),
{
    assert forall|i: int| 0 <= i < (a + b).len() implies model::is_ascii(#[trigger] (a + b)[i]) by {
        if i < a.len() {
            assert(model::is_ascii(a[i]));
        } else {
            assert(model::is_ascii(b[i - a.len()]));
        }
    }
    model::lemma_lowered_ascii(a + b);
    assert(model::ascii_lowercase(a + b) =~= model::ascii_lowercase(a) + model::ascii_lowercase(b));
}

proof fn lemma_ends(a: Seq<char>, b: Seq<char>)
    ensures
        model::ends_with(a + b, b),
{
    assert((a + b).skip((a + b).len() - b.len()) =~= b);
}

/// Documents, data, pictures and lock files say nothing of a repository's languages,
/// whatever the case of their extension.
pub proof fn documents_are_ignored(stem: Seq<char>, extension: Seq<char>)
    requires
        model::all_ascii(stem),
        model::all_ascii(extension),
        ({
            let low = model::ascii_lowercase(extension);
            ||| low == ".md"@
            ||| low == ".txt"@
            ||| low == ".json"@
            ||| low == ".yaml"@
            ||| low == ".yml"@
            ||| low == ".toml"@
            ||| low == ".lock"@
            ||| low == ".svg"@
            ||| low == ".png"@
            ||| low == ".min.js"@
            ||| low == ".map"@
        }),
    ensures
        git_history::language_of(stem + extension) is None,
{
    let low = model::ascii_lowercase(extension);
    lemma_lowered_parts(stem, extension);
    lemma_ends(model::ascii_lowercase(stem), low);
    let table = git_history::IGNORED_SUFFIXES@;
    assert(table[0]@ == ".md"@ && table[1]@ == ".txt"@ && table[2]@ == ".json"@);
    assert(table[3]@ == ".yaml"@ && table[4]@ == ".yml"@ && table[5]@ == ".toml"@);
    assert(table[6]@ == ".lock"@ && table[7]@ == ".svg"@ && table[8]@ == ".png"@);
    assert(table[18]@ == ".min.js"@ && table[19]@ == ".map"@);
    let k: int = if low == table[0]@ {
        0
    } else if low == table[1]@ {
        1
    } else if low == table[2]@ {
        2
    } else if low == table[3]@ {
        3
    } else if low == table[4]@ {
        4
    } else if low == table[5]@ {
        5
    } else if low == table[6]@ {
        6
    } else if low == table[7]@ {
        7
    } else if low == table[8]@ {
        8
    } else if low == table[18]@ {
        18
    } else {
        19
    };
    assert(model::ends_with(model::lowercase(stem + extension), table[k]@));
}

/// What lies in a directory of copied code says nothing of a repository's languages.
pub proof fn copied_code_is_ignored(head: Seq<char>, directory: Seq<char>, tail: Seq<char>)
    requires
        model::all_ascii(head),
        model::all_ascii(directory),
        model::all_ascii(tail),
        ({
            let low = model::ascii_lowercase(directory);
            low == "/vendor/"@ || low == "/node_modules/"@
        }),
    ensures
        git_history::language_of((head + directory) + tail) is None,
{
    let low = model::ascii_lowercase(directory);
    lemma_lowered_parts(head, directory);
    lemma_lowered_parts(head + directory, tail);
    model::lemma_lowered_ascii(head + directory);
    let all = model::lowercase((head + directory) + tail);
    let n = head.len() as int;
    assert(all.subrange(n, n + low.len()) =~= low);
    assert(model::matches_at(all, low, n));
    let table = git_history::IGNORED_DIRECTORIES@;
    assert(table[0]@ == "/vendor/"@ && table[1]@ == "/node_modules/"@);
}

/// A Rust source counts as Rust wherever it lies but in a directory of copied code.
pub proof fn rust_sources_count(path: Seq<char>)
    requires
        model::all_ascii(path),
        !model::contains(model::ascii_lowercase(path) + seq!['.', 'r', 's'], "/vendor/"@),
        !model::contains(model::ascii_lowercase(path) + seq!['.', 'r', 's'], "/node_modules/"@),
    ensures
        git_history::language_of(path + seq!['.', 'r', 's']) == Some("Rust"@),
{
    let end = seq!['.', 'r', 's'];
    let all = path + end;
    assert(model::all_ascii(end));
    lemma_lowered_parts(path, end);
    assert(model::ascii_lowercase(end) =~= end);
    let low = model::lowercase(all);
    let table = git_history::IGNORED_SUFFIXES@;
    lemma_no_suffix_of_rust();
    assert forall|k: int| 0 <= k < table.len() implies !model::ends_with(
        low,
        (#[trigger] table[k])@,
    ) by {
        if model::ends_with(low, table[k]@) {
            let s = table[k]@;
            assert(is_no_rust_suffix(s));
            let m = low.len() - s.len();
            assert(low.skip(m)[s.len() - 1] == low[low.len() - 1]);
            assert(low.skip(m)[s.len() - 2] == low[low.len() - 2]);
        }
    }
    let dirs = git_history::IGNORED_DIRECTORIES@;
    assert(dirs[0]@ == "/vendor/"@ && dirs[1]@ == "/node_modules/"@);
    assert(!git_history::is_ignored(all));
    reveal_strlit("rs");
    assert("rs"@ =~= seq!['r', 's']);
    let file = model::after_last(path, '/');
    assert(all =~= path.push('.') + "rs"@);
    lemma_after_last_keeps(path, end);
    lemma_last_part(file, '.', "rs"@);
    assert(file + end =~= file.push('.') + "rs"@);
    lemma_lookup(git_history::EXTENSIONS@, "rs"@, 0, 0);
}

/// What is added behind a path without a slash belongs to its file.
proof fn lemma_after_last_keeps(path: Seq<char>, end: Seq<char>)
    requires
        log::lacks(end, '/'),
    ensures
        model::after_last(path + end, '/') == model::after_last(path, '/') + end,
    decreases end.len(),
{
    let class = CharClass::Only('/');
    texts::lemma_some_piece(path, class);
    if end.len() == 0 {
        assert(path + end =~= path);
        assert(model::after_last(path, '/') + end =~= model::after_last(path, '/'));
    } else {
        let rest = end.drop_last();
        assert forall|i: int| 0 <= i < rest.len() implies #[trigger] rest[i] != '/' by {
            assert(end[i] != '/');
        }
        lemma_after_last_keeps(path, rest);
        assert((path + end).drop_last() =~= path + rest);
        assert((path + end).last() == end.last());
        assert(end[end.len() - 1] != '/');
        assert((model::after_last(path, '/') + rest).push(end.last()) =~= model::after_last(
            path,
            '/',
        ) + end);
    }
}

/// A suffix of at least two characters that no Rust source ends in.
spec fn is_no_rust_suffix(s: Seq<char>) -> bool {
    s.len() >= 2 && !(s[s.len() - 1] == 's' && s[s.len() - 2] == 'r')
}

proof fn lemma_no_suffix_of_rust()
    ensures
        forall|k: int|
            0 <= k < git_history::IGNORED_SUFFIXES@.len() ==> is_no_rust_suffix(
                (#[trigger] git_history::IGNORED_SUFFIXES@[k])@,
            ),
{
    reveal_strlit(".md");
    reveal_strlit(".txt");
    reveal_strlit(".json");
    reveal_strlit(".yaml");
    reveal_strlit(".yml");
    reveal_strlit(".toml");
    reveal_strlit(".lock");
    reveal_strlit(".svg");
    reveal_strlit(".png");
    reveal_strlit(".jpg");
    reveal_strlit(".jpeg");
    reveal_strlit(".gif");
    reveal_strlit(".ico");
    reveal_strlit(".woff");
    reveal_strlit(".woff2");
    reveal_strlit(".ttf");
    reveal_strlit(".eot");
    reveal_strlit(".pdf");
    reveal_strlit(".min.js");
    reveal_strlit(".map");
    reveal_strlit(".snap");
    reveal_strlit(".sum");
    reveal_strlit(".mod");
    reveal_strlit("cargo.lock");
    reveal_strlit("package-lock.json");
    reveal_strlit("go.sum");
}

// --- Clones ------------------------------------------------------------------

/// A clone that succeeded is followed by its log, and one that failed by a clean
/// directory; a log with commits is the result, and one without them is not.
pub proof fn attempts_take_their_course(plan: FetchPlan, strategy: usize, elapsed: u128)
    ensures
        elapsed < plan.repo_budget ==> {
            let step = git_history::following_step(
                plan,
                FetchEvent::Cloned { strategy, success: true },
                elapsed,
            );
            step is Log && step->Log_strategy == strategy
        },
        elapsed >= plan.repo_budget ==> git_history::following_step(
            plan,
            FetchEvent::Cloned { strategy, success: true },
            elapsed,
        ) == FetchStep::Failed,
        git_history::following_step(
            plan,
            FetchEvent::Cloned { strategy, success: false },
            elapsed,
        ) == (FetchStep::Clear { strategy }),
        git_history::following_step(
            plan,
            FetchEvent::Logged { strategy, usable: true },
            elapsed,
        ) == FetchStep::Found,
        git_history::following_step(
            plan,
            FetchEvent::Logged { strategy, usable: false },
            elapsed,
        ) == (FetchStep::Clear { strategy }),
{
}

/// While there is time every strategy is tried, the first one first: four for most
/// repositories, and six for large ones.
pub proof fn every_strategy_is_tried(plan: FetchPlan, strategy: usize, elapsed: u128)
    requires
        elapsed < plan.repo_budget,
    ensures
        ({
            let first = git_history::following_step(plan, FetchEvent::Started, elapsed);
            let next = git_history::following_step(plan, FetchEvent::Cleared { strategy }, elapsed);
            let last: int = if plan.macro_mode {
                5
            } else {
                3
            };
            &&& first is Clone && first->Clone_strategy == 0
            &&& strategy < last ==> next is Clone && next->Clone_strategy == strategy + 1
            &&& strategy >= last ==> next == FetchStep::Failed
        }),
{
}

/// A step has all the time of a step, or what is left of the budget.
pub proof fn steps_have_their_time(plan: FetchPlan, elapsed: u128)
    requires
        elapsed < plan.repo_budget,
    ensures
        ({
            let step = git_history::following_step(plan, FetchEvent::Started, elapsed);
            &&& step is Clone
            &&& elapsed + plan.per_step <= plan.repo_budget ==> step->Clone_limit == plan.per_step
            &&& elapsed + plan.per_step > plan.repo_budget ==> elapsed + step->Clone_limit
                == plan.repo_budget
        }),
{
}

/// Every clone is of the repository, into the directory, with the bound of its
/// strategy.
pub proof fn clones_are_of_the_repository(
    macro_mode: bool,
    k: int,
    repo_url: Seq<char>,
    dir: Seq<char>,
)
    requires
        0 <= k < git_history::strategies(macro_mode).len(),
    ensures
        ({
            let words = git_history::clone_words(
                git_history::strategies(macro_mode)[k],
                repo_url,
                dir,
            );
            &&& words.len() >= 6
            &&& words[0] == "clone"@
            &&& words[1] == git_history::strategies(macro_mode)[k].0@
            &&& words[words.len() - 2] == repo_url
            &&& words[words.len() - 1] == dir
        }),
{
}

/// Build files without an extension are known by their name, in whatever directory;
/// other files without one have no language.
pub proof fn bare_files_are_known_by_name(directory: Seq<char>, name: Seq<char>)
    requires
        log::lacks(name, '/'),
        log::lacks(name, '.'),
    ensures
        ({
            let language = git_history::language_by_name(directory.push('/') + name);
            &&& name == "Makefile"@ || name == "GNUmakefile"@ ==> language == Some("Makefile"@)
            &&& name == "Dockerfile"@ ==> language == Some("Dockerfile"@)
            &&& name != "Makefile"@ && name != "GNUmakefile"@ && name != "Dockerfile"@
                ==> language is None
        }),
{
    reveal_strlit("Makefile");
    reveal_strlit("GNUmakefile");
    reveal_strlit("Dockerfile");
    lemma_last_part(directory, '/', name);
    lemma_last_part(name, '.', name);
    reveal_with_fuel(git_history::lookup_from, 5);
    let t = git_history::BARE_FILES@;
    assert(t[0].0@ == "Makefile"@ && t[1].0@ == "GNUmakefile"@ && t[2].0@ == "Dockerfile"@);
    assert("Makefile"@.len() == 8 && "GNUmakefile"@.len() == 11 && "Dockerfile"@.len() == 10);
}

} // verus!
