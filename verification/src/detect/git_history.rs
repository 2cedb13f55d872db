//! `git log --numstat` parsing and the plan of clone attempts for
//! commit-history analysis.
//!
//! Shallow depth clones come first — they are reliable for `git log --numstat`.
//! Blob-less partial clones are faster but break numstat on many hosts (missing
//! tree objects / promisor errors), so they are only attempted as a last resort.

use crate::text;
use crate::text_model as model;
use crate::text_model::CharClass;
use vstd::prelude::*;
use vstd::string::*;

verus! {

/// One file change line from `git log --numstat`.
#[derive(Debug)]
pub struct FileChange {
    pub added: u64,
    pub removed: u64,
    pub path: String,
}

/// What a file change holds.
#[verifier::ext_equal]
pub struct Change {
    pub added: u64,
    pub removed: u64,
    pub path: Seq<char>,
}

impl View for FileChange {
    type V = Change;

    open spec fn view(&self) -> Change {
        Change { added: self.added, removed: self.removed, path: self.path@ }
    }
}

impl Clone for FileChange {
    fn clone(&self) -> (r: Self)
        ensures
            r == *self,
    {
        FileChange { added: self.added, removed: self.removed, path: self.path.clone() }
    }
}

/// Aggregated stats for a single commit.
#[derive(Debug)]
pub struct CommitRecord {
    pub timestamp: i64,
    pub subject: String,
    /// Raw `Co-authored-by` trailer values (`Name <email>`), if any.
    pub coauthors: Vec<String>,
    pub files: Vec<FileChange>,
}

/// What a commit record holds.
#[verifier::ext_equal]
pub struct Commit {
    pub timestamp: int,
    pub subject: Seq<char>,
    pub coauthors: Seq<Seq<char>>,
    pub files: Seq<Change>,
}

pub open spec fn change_views(files: Seq<FileChange>) -> Seq<Change> {
    Seq::new(files.len(), |i: int| files[i]@)
}

impl View for CommitRecord {
    type V = Commit;

    open spec fn view(&self) -> Commit {
        Commit {
            timestamp: self.timestamp as int,
            subject: self.subject@,
            coauthors: model::views(self.coauthors@),
            files: change_views(self.files@),
        }
    }
}

impl Clone for CommitRecord {
    fn clone(&self) -> (r: Self)
        ensures
            r@ == self@,
    {
        CommitRecord {
            timestamp: self.timestamp,
            subject: self.subject.clone(),
            coauthors: self.coauthors.clone(),
            files: self.files.clone(),
        }
    }
}

/// What a list of commit records holds.
pub open spec fn commit_views(records: Seq<CommitRecord>) -> Seq<Commit> {
    Seq::new(records.len(), |i: int| records[i]@)
}

// --- Parsing -----------------------------------------------------------------

/// The log holds a header line of at least one commit.
pub open spec fn has_commits(raw: Seq<char>) -> bool {
    exists|i: int|
        0 <= i < model::lines(raw).len() && model::contains(#[trigger] model::lines(raw)[i], "\0"@)
}

pub fn log_contains_commits(raw: &str) -> (r: bool)
    ensures
        r == has_commits(raw@),
{
    let lines = text::lines(raw);
    let ghost all = model::lines(raw@);
    let mut i: usize = 0;
    while i < lines.len()
        invariant
            i <= lines@.len(),
            model::views(lines@) == all,
            all == model::lines(raw@),
            forall|j: int| 0 <= j < i ==> !model::contains(#[trigger] all[j], "\0"@),
        decreases lines@.len() - i,
    {
        assert(all[i as int] == lines@[i as int]@);
        if text::contains(lines[i].as_str(), "\0") {
            return true;
        }
        i += 1;
    }
    false
}

pub open spec fn trimmed(pieces: Seq<Seq<char>>) -> Seq<Seq<char>> {
    Seq::new(pieces.len(), |i: int| model::trim(pieces[i], CharClass::Whitespace))
}

/// The co-authors of a trailer field.
pub open spec fn coauthors_in(raw: Seq<char>) -> Seq<Seq<char>> {
    model::nonempty(trimmed(model::split(raw, CharClass::Only('\u{1}'))))
}

/// The commit that a header line opens: hash, timestamp, subject and, if they
/// are there, trailers, with NUL between them.
pub open spec fn header(line: Seq<char>) -> Option<Commit> {
    match model::split_once(line, "\0"@) {
        Some(hashed) => match model::split_once(hashed.1, "\0"@) {
            Some(stamped) => match model::parse_i64(stamped.0) {
                Some(timestamp) => Some(
                    match model::split_once(stamped.1, "\0"@) {
                        Some(titled) => Commit {
                            timestamp,
                            subject: titled.0,
                            coauthors: coauthors_in(titled.1),
                            files: Seq::empty(),
                        },
                        None => Commit {
                            timestamp,
                            subject: stamped.1,
                            coauthors: Seq::empty(),
                            files: Seq::empty(),
                        },
                    },
                ),
                None => None,
            },
            None => None,
        },
        None => None,
    }
}

/// A count column; binary files have a dash there, which counts as zero.
pub open spec fn count_column(s: Seq<char>) -> u64 {
    match model::parse_unsigned(s, u64::MAX as nat) {
        Some(n) => n as u64,
        None => 0,
    }
}

/// The file change of a numstat line: added, removed and path, with tabs
/// between them.
pub open spec fn file_line(line: Seq<char>) -> Option<Change> {
    let columns = model::split(line, CharClass::Only('\t'));
    if columns.len() >= 3 {
        Some(
            Change {
                added: count_column(columns[0]),
                removed: count_column(columns[1]),
                path: columns[2],
            },
        )
    } else {
        None
    }
}

/// The commits once one more line is read: a header opens a commit, a file
/// line belongs to the last commit, any other line is passed over.
pub open spec fn read_line(commits: Seq<Commit>, line: Seq<char>) -> Seq<Commit> {
    match header(line) {
        Some(commit) => commits.push(commit),
        None => match file_line(line) {
            Some(change) => if commits.len() > 0 {
                let last = commits.last();
                commits.drop_last().push(
                    Commit {
                        timestamp: last.timestamp,
                        subject: last.subject,
                        coauthors: last.coauthors,
                        files: last.files.push(change),
                    },
                )
            } else {
                commits
            },
            None => commits,
        },
    }
}

/// The commits of a log's lines.
pub open spec fn commits_in(lines: Seq<Seq<char>>) -> Seq<Commit>
    decreases lines.len(),
{
    if lines.len() == 0 {
        Seq::empty()
    } else {
        read_line(commits_in(lines.drop_last()), lines.last())
    }
}

fn parse_coauthors(raw: &str) -> (r: Vec<String>)
    ensures
        model::views(r@) == coauthors_in(raw@),
{
    let pieces = text::split(raw, CharClass::Only('\u{1}'));
    let ghost all = model::views(pieces@);
    let mut out: Vec<String> = Vec::new();
    let mut i: usize = 0;
    while i < pieces.len()
        invariant
            i <= pieces@.len(),
            all == model::views(pieces@),
            model::views(out@) == trimmed(all).take(i as int),
        decreases pieces@.len() - i,
    {
        let ghost held = out@;
        out.push(text::trim(pieces[i].as_str(), CharClass::Whitespace).to_owned());
        assert(model::views(out@) =~= model::views(held).push(trimmed(all)[i as int]));
        assert(trimmed(all).take(i + 1) =~= trimmed(all).take(i as int).push(
            trimmed(all)[i as int],
        ));
        i += 1;
    }
    assert(trimmed(all).take(all.len() as int) =~= trimmed(all));
    text::nonempty(&out)
}

fn parse_header(line: &str) -> (r: Option<CommitRecord>)
    ensures
        match r {
            Some(c) => header(line@) == Some(c@),
            None => header(line@) is None,
        },
{
    let hashed = match text::split_once(line, "\0") {
        Some(parts) => parts,
        None => return None,
    };
    let stamped = match text::split_once(hashed.1, "\0") {
        Some(parts) => parts,
        None => return None,
    };
    let timestamp: i64 = match text::parse_i64(stamped.0) {
        Some(n) => n,
        None => return None,
    };
    let files: Vec<FileChange> = Vec::new();
    assert(change_views(files@) =~= Seq::empty());
    match text::split_once(stamped.1, "\0") {
        Some(titled) => Some(
            CommitRecord {
                timestamp,
                subject: titled.0.to_owned(),
                coauthors: parse_coauthors(titled.1),
                files,
            },
        ),
        None => {
            let coauthors: Vec<String> = Vec::new();
            assert(model::views(coauthors@) =~= Seq::empty());
            Some(CommitRecord { timestamp, subject: stamped.1.to_owned(), coauthors, files })
        },
    }
}

fn parse_count(s: &str) -> (r: u64)
    ensures
        r == count_column(s@),
{
    match text::parse_unsigned(s, u64::MAX) {
        Some(n) => n,
        None => 0,
    }
}

fn parse_file_line(line: &str) -> (r: Option<FileChange>)
    ensures
        match r {
            Some(f) => file_line(line@) == Some(f@),
            None => file_line(line@) is None,
        },
{
    let columns = text::split(line, CharClass::Only('\t'));
    if columns.len() < 3 {
        return None;
    }
    let ghost all = model::split(line@, CharClass::Only('\t'));
    assert(all[0] == columns@[0]@ && all[1] == columns@[1]@ && all[2] == columns@[2]@);
    Some(
        FileChange {
            added: parse_count(columns[0].as_str()),
            removed: parse_count(columns[1].as_str()),
            path: columns[2].clone(),
        },
    )
}

/// The commits of a list, and one that is still being read.
pub open spec fn with_current(done: Seq<CommitRecord>, current: Option<CommitRecord>) -> Seq<
    Commit,
> {
    match current {
        Some(c) => commit_views(done).push(c@),
        None => commit_views(done),
    }
}

/// Parse NUL-delimited `git log --numstat` output into commit records.
pub fn parse_numstat_log(raw: &str) -> (r: Vec<CommitRecord>)
    ensures
        commit_views(r@) == commits_in(model::lines(raw@)),
{
    let lines = text::lines(raw);
    let ghost all = model::lines(raw@);
    let mut commits: Vec<CommitRecord> = Vec::new();
    let mut current: Option<CommitRecord> = None;
    let mut i: usize = 0;
    assert(with_current(commits@, current) =~= commits_in(all.take(0)));
    while i < lines.len()
        invariant
            i <= lines@.len(),
            all == model::views(lines@),
            with_current(commits@, current) == commits_in(all.take(i as int)),
            current is None ==> commits@.len() == 0,
        decreases lines@.len() - i,
    {
        assert(all.take(i + 1).drop_last() =~= all.take(i as int));
        let line = lines[i].as_str();
        let ghost before = with_current(commits@, current);
        assert(commits_in(all.take(i + 1)) == read_line(before, line@));
        if let Some(opened) = parse_header(line) {
            if let Some(c) = current {
                let ghost held = commits@;
                commits.push(c);
                assert(commit_views(commits@) =~= commit_views(held).push(c@));
            }
            current = Some(opened);
            assert(with_current(commits@, current) =~= before.push(opened@));
        } else if let Some(change) = parse_file_line(line) {
            if let Some(mut c) = current {
                let ghost held = c;
                let ghost added = change@;
                c.files.push(change);
                assert(change_views(c.files@) =~= change_views(held.files@).push(added));
                current = Some(c);
                assert(before.drop_last() =~= commit_views(commits@));
                assert(before.last() == held@);
            } else {
                current = None;
                assert(before.len() == 0);
            }
        }
        i += 1;
    }
    assert(all.take(all.len() as int) =~= all);
    if let Some(c) = current {
        let ghost held = commits@;
        commits.push(c);
        assert(commit_views(commits@) =~= commit_views(held).push(c@));
    }
    commits
}

/// The header lines of a log.
pub open spec fn headers_in(lines: Seq<Seq<char>>) -> nat
    decreases lines.len(),
{
    if lines.len() == 0 {
        0
    } else {
        headers_in(lines.drop_last()) + if header(lines.last()) is Some {
            1nat
        } else {
            0
        }
    }
}

/// A log has as many commits as header lines: no line is lost between them, and
/// none is made up.
pub proof fn every_header_is_a_commit(lines: Seq<Seq<char>>)
    ensures
        commits_in(lines).len() == headers_in(lines),
    decreases lines.len(),
{
    if lines.len() > 0 {
        every_header_is_a_commit(lines.drop_last());
    }
}

/// What follows in a log changes only the files of the last commit: the commits
/// before it stay as they were read.
pub proof fn finished_commits_stay(lines: Seq<Seq<char>>, line: Seq<char>, i: int)
    requires
        0 <= i < commits_in(lines).len() - 1,
    ensures
        commits_in(lines.push(line)).len() > i,
        commits_in(lines.push(line))[i] == commits_in(lines)[i],
{
    assert(lines.push(line).drop_last() =~= lines);
}

// --- Languages ---------------------------------------------------------------

pub const IGNORED_SUFFIXES: [&'static str; 26] = [
    ".md",
    ".txt",
    ".json",
    ".yaml",
    ".yml",
    ".toml",
    ".lock",
    ".svg",
    ".png",
    ".jpg",
    ".jpeg",
    ".gif",
    ".ico",
    ".woff",
    ".woff2",
    ".ttf",
    ".eot",
    ".pdf",
    ".min.js",
    ".map",
    ".snap",
    ".sum",
    ".mod",
    "cargo.lock",
    "package-lock.json",
    "go.sum",
];

pub const IGNORED_DIRECTORIES: [&'static str; 2] = ["/vendor/", "/node_modules/"];

/// File extensions and the languages they stand for.
pub const EXTENSIONS: [(&'static str, &'static str); 55] = [
    ("rs", "Rust"),
    ("c", "C"),
    ("h", "C"),
    ("cc", "C++"),
    ("cpp", "C++"),
    ("cxx", "C++"),
    ("hpp", "C++"),
    ("hh", "C++"),
    ("hxx", "C++"),
    ("py", "Python"),
    ("pyi", "Python"),
    ("pyx", "Python"),
    ("js", "JavaScript"),
    ("mjs", "JavaScript"),
    ("cjs", "JavaScript"),
    ("ts", "TypeScript"),
    ("tsx", "TypeScript"),
    ("go", "Go"),
    ("java", "Java"),
    ("kt", "Kotlin"),
    ("kts", "Kotlin"),
    ("swift", "Swift"),
    ("rb", "Ruby"),
    ("php", "PHP"),
    ("cs", "C#"),
    ("scala", "Scala"),
    ("sc", "Scala"),
    ("hs", "Haskell"),
    ("lua", "Lua"),
    ("zig", "Zig"),
    ("nim", "Nim"),
    ("ex", "Elixir"),
    ("exs", "Elixir"),
    ("erl", "Erlang"),
    ("hrl", "Erlang"),
    ("clj", "Clojure"),
    ("cljs", "Clojure"),
    ("ml", "OCaml"),
    ("mli", "OCaml"),
    ("fs", "F#"),
    ("fsi", "F#"),
    ("fsx", "F#"),
    ("r", "R"),
    ("sh", "Shell"),
    ("bash", "Shell"),
    ("zsh", "Shell"),
    ("pl", "Perl"),
    ("pm", "Perl"),
    ("dart", "Dart"),
    ("v", "Verilog"),
    ("sv", "Verilog"),
    ("asm", "Assembly"),
    ("s", "Assembly"),
    ("m", "Objective-C"),
    ("mm", "Objective-C"),
];

/// Extensionless sources we still care about.
pub const BARE_FILES: [(&'static str, &'static str); 3] = [
    ("Makefile", "Makefile"),
    ("GNUmakefile", "Makefile"),
    ("Dockerfile", "Dockerfile"),
];

/// A path in lower case that says nothing about a repository's languages.
pub open spec fn is_ignored_lower(lower: Seq<char>) -> bool {
    model::any_suffix(lower, IGNORED_SUFFIXES@) || model::any_phrase(lower, IGNORED_DIRECTORIES@)
}

/// A path that says nothing about a repository's languages.
pub open spec fn is_ignored(path: Seq<char>) -> bool {
    is_ignored_lower(model::lowercase(path))
}

/// What a table gives for a key, from its `k`-th entry on.
pub open spec fn lookup_from(
    table: Seq<(&'static str, &'static str)>,
    key: Seq<char>,
    k: int,
) -> Option<Seq<char>>
    decreases table.len() - k,
{
    if k < 0 || k >= table.len() {
        None
    } else if table[k].0@ == key {
        Some(table[k].1@)
    } else {
        lookup_from(table, key, k + 1)
    }
}

/// The language of a file: by its extension, or by its name where it has none.
pub open spec fn language_by_name(path: Seq<char>) -> Option<Seq<char>> {
    let file = model::after_last(path, '/');
    let ext = model::after_last(file, '.');
    if ext == file {
        lookup_from(BARE_FILES@, file, 0)
    } else {
        lookup_from(EXTENSIONS@, ext, 0)
    }
}

/// The language of a file that is not ignored.
pub open spec fn language_of(path: Seq<char>) -> Option<Seq<char>> {
    if is_ignored(path) {
        None
    } else {
        language_by_name(path)
    }
}

/// Paths we ignore when inferring language composition (docs, lockfiles, assets).
pub fn is_ignored_path(path: &str) -> (r: bool)
    ensures
        r == is_ignored(path@),
{
    let lower = path.to_lowercase();
    ignores_lower(lower.as_str())
}

/// Whether a path in lower case is ignored.
pub fn ignores_lower(lower: &str) -> (r: bool)
    ensures
        r == is_ignored_lower(lower@),
{
    text::any_suffix(lower, &IGNORED_SUFFIXES) || text::any_phrase(lower, &IGNORED_DIRECTORIES)
}

fn lookup(table: &[(&'static str, &'static str)], key: &str) -> (r: Option<&'static str>)
    ensures
        match r {
            Some(found) => lookup_from(table@, key@, 0) == Some(found@),
            None => lookup_from(table@, key@, 0) is None,
        },
{
    let mut k: usize = 0;
    while k < table.len()
        invariant
            k <= table@.len(),
            lookup_from(table@, key@, 0) == lookup_from(table@, key@, k as int),
        decreases table@.len() - k,
    {
        if text::equal(table[k].0, key) {
            return Some(table[k].1);
        }
        k += 1;
    }
    None
}

/// Map a file path to a GitHub-style language label via extension.
pub fn language_from_path(path: &str) -> (r: Option<&'static str>)
    ensures
        match r {
            Some(language) => language_of(path@) == Some(language@),
            None => language_of(path@) is None,
        },
{
    if is_ignored_path(path) {
        return None;
    }
    language_from_name(path)
}

/// The language of a file, whether or not its path is ignored.
pub fn language_from_name(path: &str) -> (r: Option<&'static str>)
    ensures
        match r {
            Some(language) => language_by_name(path@) == Some(language@),
            None => language_by_name(path@) is None,
        },
{
    let file = text::after_last(path, '/');
    let ext = text::after_last(file.as_str(), '.');
    if text::equal(ext.as_str(), file.as_str()) {
        return lookup(&BARE_FILES, file.as_str());
    }
    lookup(&EXTENSIONS, ext.as_str())
}

/// A path that is ignored has no language, so its lines never count.
pub proof fn ignored_paths_have_no_language(path: Seq<char>)
    requires
        is_ignored(path),
    ensures
        language_of(path) is None,
{
}

// --- Clone plan --------------------------------------------------------------

/// Clone strategies for typical repos: how each bounds what it fetches.
pub const CLONE_STRATEGIES: [(&'static str, &'static str); 4] = [
    ("--depth", "8000"),
    ("--depth", "3000"),
    ("--shallow-since=5 years ago", ""),
    ("--filter=blob:none", ""),
];

/// Deeper strategies for exemplar / macro-commit analysis on large monorepos.
pub const MACRO_CLONE_STRATEGIES: [(&'static str, &'static str); 6] = [
    ("--depth", "50000"),
    ("--depth", "25000"),
    ("--depth", "12000"),
    ("--shallow-since=10 years ago", ""),
    ("--shallow-since=5 years ago", ""),
    ("--filter=blob:none", ""),
];

/// The arguments of `git log`. Trailers are emitted on the same logical record
/// as the subject so the numstat parser stays line-oriented (bodies with
/// newlines would break it).
pub const LOG_ARGS: [&'static str; 4] = [
    "log",
    "--reverse",
    "--numstat",
    "--format=%H%x00%ct%x00%s%x00%(trailers:key=Co-authored-by,valueonly,separator=%x01)",
];

pub open spec fn strategies(macro_mode: bool) -> Seq<(&'static str, &'static str)> {
    if macro_mode {
        MACRO_CLONE_STRATEGIES@
    } else {
        CLONE_STRATEGIES@
    }
}

/// The options of a strategy: one or two words that bound it, and two that all
/// strategies share.
pub open spec fn strategy_options(strategy: (&'static str, &'static str)) -> Seq<Seq<char>> {
    let bound = if strategy.1@.len() == 0 {
        seq![strategy.0@]
    } else {
        seq![strategy.0@, strategy.1@]
    };
    bound + seq!["--single-branch"@, "--quiet"@]
}

pub open spec fn clone_words(
    strategy: (&'static str, &'static str),
    repo_url: Seq<char>,
    dir: Seq<char>,
) -> Seq<Seq<char>> {
    seq!["clone"@] + strategy_options(strategy) + seq![repo_url, dir]
}

fn get_strategy(macro_mode: bool, k: usize) -> (r: (&'static str, &'static str))
    requires
        k < strategies(macro_mode).len(),
    ensures
        r == strategies(macro_mode)[k as int],
{
    if macro_mode {
        MACRO_CLONE_STRATEGIES[k]
    } else {
        CLONE_STRATEGIES[k]
    }
}

fn strategy_count(macro_mode: bool) -> (r: usize)
    ensures
        r == strategies(macro_mode).len(),
{
    if macro_mode {
        MACRO_CLONE_STRATEGIES.len()
    } else {
        CLONE_STRATEGIES.len()
    }
}

/// The arguments of `git` that clone a repository by the `k`-th strategy; none
/// when there is no such strategy.
pub fn clone_args(macro_mode: bool, k: usize, repo_url: &str, dir: &str) -> (r: Option<
    Vec<String>,
>)
    ensures
        match r {
            Some(args) => k < strategies(macro_mode).len() && model::views(args@) == clone_words(
                strategies(macro_mode)[k as int],
                repo_url@,
                dir@,
            ),
            None => k >= strategies(macro_mode).len(),
        },
{
    if k >= strategy_count(macro_mode) {
        return None;
    }
    let strategy = get_strategy(macro_mode, k);
    let mut args: Vec<String> = Vec::new();
    args.push("clone".to_owned());
    args.push(strategy.0.to_owned());
    if !strategy.1.is_empty() {
        args.push(strategy.1.to_owned());
    }
    args.push("--single-branch".to_owned());
    args.push("--quiet".to_owned());
    args.push(repo_url.to_owned());
    args.push(dir.to_owned());
    assert(model::views(args@) =~= clone_words(strategy, repo_url@, dir@));
    Some(args)
}

/// How a command ended.
#[derive(Debug, Clone, Copy, PartialEq, Eq, Structural)]
pub enum RunOutcome {
    /// It ran to its end.
    Finished { success: bool },
    /// It could not be started or waited for.
    NotRun,
    /// It was killed when its time was over.
    TimedOut,
}

/// Whether a command ran to its end and succeeded.
pub fn succeeded(outcome: RunOutcome) -> (r: bool)
    ensures
        r == (outcome == RunOutcome::Finished { success: true }),
{
    match outcome {
        RunOutcome::Finished { success } => success,
        _ => false,
    }
}

/// The output of a log command is a log that can be used.
pub open spec fn is_usable(outcome: RunOutcome, stdout: Seq<char>) -> bool {
    outcome == (RunOutcome::Finished { success: true }) && has_commits(stdout)
}

/// Whether the output of a log command is a log that can be used: the command
/// succeeded, and there are commits in it.
pub fn is_usable_log(outcome: RunOutcome, stdout: &str) -> (r: bool)
    ensures
        r == is_usable(outcome, stdout@),
        r == (outcome == (RunOutcome::Finished { success: true }) && has_commits(stdout@)),
{
    succeeded(outcome) && log_contains_commits(stdout)
}

/// The limits of one repository's clone attempts, in nanoseconds.
#[derive(Debug, Clone, Copy, PartialEq, Eq, Structural)]
pub struct FetchPlan {
    /// Cap on each individual clone/log invocation.
    pub per_step: u128,
    /// Hard wall-clock limit across all strategies, so one stubborn repo cannot
    /// burn unbounded wall time.
    pub repo_budget: u128,
    /// Deeper clone strategies, suited to large exemplar monorepos.
    pub macro_mode: bool,
}

/// What has just happened.
#[derive(Debug, Clone, Copy, PartialEq, Eq, Structural)]
pub enum FetchEvent {
    Started,
    /// The clone by a strategy ended.
    Cloned { strategy: usize, success: bool },
    /// The log was read; `usable` when there is one that holds commits.
    Logged { strategy: usize, usable: bool },
    /// The directory is empty again.
    Cleared { strategy: usize },
}

/// What to do next.
#[derive(Debug, Clone, Copy, PartialEq, Eq, Structural)]
pub enum FetchStep {
    /// Clone by a strategy, for at most `limit` nanoseconds.
    Clone { strategy: usize, limit: u128 },
    /// Read the log, for at most `limit` nanoseconds.
    Log { strategy: usize, limit: u128 },
    /// Empty the directory.
    Clear { strategy: usize },
    /// The log that was read is the result.
    Found,
    /// There is no result.
    Failed,
}

/// What is left of the budget.
pub open spec fn remaining_budget(plan: FetchPlan, elapsed: u128) -> int {
    if elapsed >= plan.repo_budget {
        0
    } else {
        plan.repo_budget - elapsed
    }
}

/// The time that a step may take.
pub open spec fn step_limit(plan: FetchPlan, elapsed: u128) -> u128 {
    if plan.per_step <= remaining_budget(plan, elapsed) {
        plan.per_step
    } else {
        remaining_budget(plan, elapsed) as u128
    }
}

/// The clone by a strategy, if there is one and the budget is not exhausted.
pub open spec fn clone_step(plan: FetchPlan, strategy: int, elapsed: u128) -> FetchStep {
    if strategy >= strategies(plan.macro_mode).len() || remaining_budget(plan, elapsed) == 0 {
        FetchStep::Failed
    } else {
        FetchStep::Clone { strategy: strategy as usize, limit: step_limit(plan, elapsed) }
    }
}

/// The step that follows an event.
pub open spec fn following_step(plan: FetchPlan, event: FetchEvent, elapsed: u128) -> FetchStep {
    match event {
        FetchEvent::Started => clone_step(plan, 0, elapsed),
        FetchEvent::Cloned { strategy, success } => if !success {
            FetchStep::Clear { strategy }
        } else if remaining_budget(plan, elapsed) == 0 {
            FetchStep::Failed
        } else {
            FetchStep::Log { strategy, limit: step_limit(plan, elapsed) }
        },
        FetchEvent::Logged { strategy, usable } => if usable {
            FetchStep::Found
        } else {
            FetchStep::Clear { strategy }
        },
        FetchEvent::Cleared { strategy } => clone_step(plan, strategy + 1, elapsed),
    }
}

fn limit_of(plan: &FetchPlan, elapsed: u128) -> (r: u128)
    ensures
        r == step_limit(*plan, elapsed),
{
    let remaining: u128 = if elapsed >= plan.repo_budget {
        0
    } else {
        plan.repo_budget - elapsed
    };
    if plan.per_step <= remaining {
        plan.per_step
    } else {
        remaining
    }
}

fn start_clone(plan: &FetchPlan, strategy: usize, elapsed: u128) -> (r: FetchStep)
    ensures
        r == clone_step(*plan, strategy as int, elapsed),
{
    if strategy >= strategy_count(plan.macro_mode) || elapsed >= plan.repo_budget {
        FetchStep::Failed
    } else {
        FetchStep::Clone { strategy, limit: limit_of(plan, elapsed) }
    }
}

/// The step that follows an event, once `elapsed` nanoseconds have passed since
/// the start.
pub fn next_step(plan: &FetchPlan, event: FetchEvent, elapsed: u128) -> (r: FetchStep)
    ensures
        r == following_step(*plan, event, elapsed),
{
    match event {
        FetchEvent::Started => start_clone(plan, 0, elapsed),
        FetchEvent::Cloned { strategy, success } => {
            if !success {
                FetchStep::Clear { strategy }
            } else if elapsed >= plan.repo_budget {
                FetchStep::Failed
            } else {
                FetchStep::Log { strategy, limit: limit_of(plan, elapsed) }
            }
        },
        FetchEvent::Logged { strategy, usable } => {
            if usable {
                FetchStep::Found
            } else {
                FetchStep::Clear { strategy }
            }
        },
        FetchEvent::Cleared { strategy } => {
            if strategy >= strategy_count(plan.macro_mode) {
                FetchStep::Failed
            } else {
                start_clone(plan, strategy + 1, elapsed)
            }
        },
    }
}

/// No step may take longer than the cap on a step, nor past the budget of the
/// repository; and a step that runs has some time.
pub proof fn steps_keep_the_budget(plan: FetchPlan, event: FetchEvent, elapsed: u128)
    ensures
        match following_step(plan, event, elapsed) {
            FetchStep::Clone { strategy, limit } => limit <= plan.per_step && elapsed + limit
                <= plan.repo_budget && elapsed < plan.repo_budget,
            FetchStep::Log { strategy, limit } => limit <= plan.per_step && elapsed + limit
                <= plan.repo_budget && elapsed < plan.repo_budget,
            _ => true,
        },
{
}

/// After a strategy failed, the clone that follows is by a later one: no
/// strategy is tried twice.
pub proof fn strategies_are_tried_in_order(plan: FetchPlan, strategy: usize, elapsed: u128)
    ensures
        following_step(plan, FetchEvent::Cleared { strategy }, elapsed) matches FetchStep::Clone {
            strategy: next,
            limit: _,
        } ==> next == strategy + 1 && next < strategies(plan.macro_mode).len(),
{
}

} // verus!
