//! Laws of reading `git log --numstat`.

use crate::detect::git_history;
use crate::detect::git_history::{Change, Commit, RunOutcome};
use crate::text_model as model;
use crate::text_model::CharClass;
use vstd::prelude::*;
use vstd::string::*;

verus! {

/// A text without this character.
pub open spec fn lacks(s: Seq<char>, c: char) -> bool {
    forall|i: int| 0 <= i < s.len() ==> #[trigger] s[i] != c
}

// --- Numbers -----------------------------------------------------------------

/// The digits of a number are digits, and write it.
pub proof fn lemma_decimal(n: nat)
    ensures
        model::decimal(n).len() > 0,
        model::all_digits(model::decimal(n)),
        model::digits_value(model::decimal(n)) == n,
    decreases n,
{
    let digit = ('0' as nat + n % 10) as char;
    assert(digit as nat == '0' as nat + n % 10);
    if n < 10 {
        assert(seq![digit].drop_last() =~= Seq::empty());
        assert(model::decimal(n).last() == digit);
        assert(model::digits_value(Seq::empty()) == 0);
    } else {
        lemma_decimal(n / 10);
        let rest = model::decimal(n / 10);
        assert(rest.push(digit).drop_last() =~= rest);
        assert forall|i: int| 0 <= i < rest.push(digit).len() implies model::is_digit(
            #[trigger] rest.push(digit)[i],
        ) by {
            if i < rest.len() {
                assert(model::is_digit(rest[i]));
            }
        }
    }
}

/// A number of 64 bits is read back from its digits.
pub proof fn counts_are_read_back(n: u64)
    ensures
        git_history::count_column(model::decimal(n as nat)) == n,
        lacks(model::decimal(n as nat), '\t'),
        lacks(model::decimal(n as nat), '\0'),
{
    lemma_decimal(n as nat);
    assert(model::is_digit(model::decimal(n as nat)[0]));
    assert forall|i: int| 0 <= i < model::decimal(n as nat).len() implies #[trigger] model::decimal(
        n as nat,
    )[i] != '\t' && model::decimal(n as nat)[i] != '\0' by {
        assert(model::is_digit(model::decimal(n as nat)[i]));
    }
}

// --- Pieces ------------------------------------------------------------------

/// A text without a character is one piece.
pub proof fn lemma_one_piece(s: Seq<char>, c: char)
    requires
        lacks(s, c),
    ensures
        model::split(s, CharClass::Only(c)) == seq![s],
    decreases s.len(),
{
    if s.len() == 0 {
        assert(s =~= Seq::empty());
    } else {
        let rest = s.drop_last();
        assert forall|i: int| 0 <= i < rest.len() implies #[trigger] rest[i] != c by {
            assert(s[i] != c);
        }
        lemma_one_piece(rest, c);
        assert(s[s.len() - 1] != c);
        assert(rest.push(s.last()) =~= s);
        assert(seq![rest].drop_last().push(rest.push(s.last())) =~= seq![s]);
    }
}

/// A text that is added behind a separator is one more piece.
pub proof fn lemma_one_more_piece(s: Seq<char>, piece: Seq<char>, c: char)
    requires
        lacks(piece, c),
    ensures
        model::split(s.push(c) + piece, CharClass::Only(c)) == model::split(
            s,
            CharClass::Only(c),
        ).push(piece),
    decreases piece.len(),
{
    let class = CharClass::Only(c);
    let all = s.push(c) + piece;
    if piece.len() == 0 {
        assert(all =~= s.push(c));
        assert(s.push(c).drop_last() =~= s);
        assert(piece =~= Seq::empty());
    } else {
        let rest = piece.drop_last();
        assert forall|i: int| 0 <= i < rest.len() implies #[trigger] rest[i] != c by {
            assert(piece[i] != c);
        }
        lemma_one_more_piece(s, rest, c);
        assert(all.drop_last() =~= s.push(c) + rest);
        assert(all.last() == piece.last());
        assert(piece[piece.len() - 1] != c);
        let before = model::split(s, class).push(rest);
        assert(rest.push(piece.last()) =~= piece);
        assert(before.drop_last().push(rest.push(piece.last())) =~= model::split(s, class).push(
            piece,
        ));
    }
}

/// A line of numstat: lines added, lines removed and a path, with tabs between.
pub open spec fn numstat_line(added: u64, removed: u64, path: Seq<char>) -> Seq<char> {
    (model::decimal(added as nat).push('\t') + model::decimal(removed as nat)).push('\t') + path
}

/// A line of numstat is read as the change that it writes, whatever its counts and
/// its path.
pub proof fn file_changes_are_read_back(added: u64, removed: u64, path: Seq<char>)
    requires
        lacks(path, '\t'),
    ensures
        git_history::file_line(numstat_line(added, removed, path)) == Some(
            Change { added, removed, path },
        ),
{
    let class = CharClass::Only('\t');
    let a = model::decimal(added as nat);
    let r = model::decimal(removed as nat);
    counts_are_read_back(added);
    counts_are_read_back(removed);
    lemma_one_piece(a, '\t');
    lemma_one_more_piece(a, r, '\t');
    lemma_one_more_piece(a.push('\t') + r, path, '\t');
    let columns = model::split(numstat_line(added, removed, path), class);
    assert(columns =~= seq![a, r, path]);
}

/// A binary file has no counts: dashes stand for no lines.
pub proof fn dashes_count_nothing(path: Seq<char>)
    requires
        lacks(path, '\t'),
    ensures
        git_history::file_line(seq!['-', '\t', '-', '\t'] + path) == Some(
            Change { added: 0, removed: 0, path },
        ),
{
    let dash = seq!['-'];
    assert forall|i: int| 0 <= i < dash.len() implies #[trigger] dash[i] != '\t' by {}
    lemma_one_piece(dash, '\t');
    lemma_one_more_piece(dash, dash, '\t');
    lemma_one_more_piece(dash.push('\t') + dash, path, '\t');
    assert((dash.push('\t') + dash).push('\t') + path =~= seq!['-', '\t', '-', '\t'] + path);
    let columns = model::split(seq!['-', '\t', '-', '\t'] + path, CharClass::Only('\t'));
    assert(columns =~= seq![dash, dash, path]);
    assert(!model::is_digit(dash[0]));
    assert(!model::all_digits(dash));
}

// --- Headers -----------------------------------------------------------------

/// The text before the first separator and the text behind it.
proof fn lemma_split_at_nul(head: Seq<char>, tail: Seq<char>)
    requires
        lacks(head, '\0'),
    ensures
        model::split_once(head.push('\0') + tail, "\0"@) == Some((head, tail)),
{
    let s = head.push('\0') + tail;
    let n = head.len() as int;
    reveal_strlit("\0");
    assert("\0"@ =~= seq!['\0']);
    assert(s.subrange(n, n + 1) =~= seq!['\0']);
    assert(model::matches_at(s, "\0"@, n));
    assert forall|j: int| 0 <= j < n implies !model::matches_at(s, "\0"@, j) by {
        if model::matches_at(s, "\0"@, j) {
            assert(s.subrange(j, j + 1)[0] == s[j]);
            assert(s[j] == head[j]);
        }
    }
    model::lemma_find(s, "\0"@, n);
    assert(s.take(n) =~= head);
    assert(s.skip(n + 1) =~= tail);
}

proof fn lemma_no_nul(s: Seq<char>)
    requires
        lacks(s, '\0'),
    ensures
        model::split_once(s, "\0"@) is None,
{
    reveal_strlit("\0");
    assert("\0"@ =~= seq!['\0']);
    model::lemma_lacks(s, "\0"@, 0);
}

/// A header of the log: hash, timestamp and subject, each with a NUL behind it, and
/// the trailers.
pub open spec fn header_line(
    hash: Seq<char>,
    timestamp: nat,
    subject: Seq<char>,
    trailers: Seq<char>,
) -> Seq<char> {
    hash.push('\0') + (model::decimal(timestamp).push('\0') + (subject.push('\0') + trailers))
}

/// A header is read as the commit that it writes, without files.
pub proof fn headers_are_read_back(
    hash: Seq<char>,
    timestamp: nat,
    subject: Seq<char>,
    trailers: Seq<char>,
)
    requires
        lacks(hash, '\0'),
        lacks(subject, '\0'),
        timestamp <= i64::MAX,
    ensures
        ({
            let read = git_history::header(header_line(hash, timestamp, subject, trailers));
            &&& read is Some
            &&& read->0.timestamp == timestamp
            &&& read->0.subject == subject
            &&& read->0.files.len() == 0
            &&& trailers.len() == 0 ==> read->0.coauthors.len() == 0
        }),
{
    let digits = model::decimal(timestamp);
    let titled = subject.push('\0') + trailers;
    let stamped = digits.push('\0') + titled;
    counts_are_read_back(timestamp as u64);
    lemma_decimal(timestamp);
    assert(model::is_digit(digits[0]));
    lemma_split_at_nul(hash, stamped);
    lemma_split_at_nul(digits, titled);
    lemma_split_at_nul(subject, trailers);
    if trailers.len() == 0 {
        assert(trailers =~= Seq::empty());
        let pieces = model::split(trailers, CharClass::Only('\u{1}'));
        assert(pieces =~= seq![Seq::<char>::empty()]);
        assert(git_history::trimmed(pieces) =~= seq![Seq::<char>::empty()]);
        let one = git_history::trimmed(pieces);
        assert(one.drop_last() =~= Seq::empty());
        assert(model::nonempty(one.drop_last()) =~= Seq::empty());
        assert(one.last().len() == 0);
    }
}

/// A co-author in the trailers of a header: it begins and ends in no white space,
/// and holds no separator.
pub open spec fn is_coauthor(name: Seq<char>) -> bool {
    &&& name.len() > 0
    &&& !model::is_whitespace(name[0])
    &&& !model::is_whitespace(name.last())
    &&& lacks(name, '\u{1}')
}

/// One more co-author behind a separator is one more in the list.
pub proof fn coauthors_are_read_back(trailers: Seq<char>, name: Seq<char>)
    requires
        is_coauthor(name),
    ensures
        git_history::coauthors_in(name) == seq![name],
        git_history::coauthors_in(trailers.push('\u{1}') + name) == git_history::coauthors_in(
            trailers,
        ).push(name),
{
    let c = '\u{1}';
    lemma_one_piece(name, c);
    lemma_one_more_piece(trailers, name, c);
    assert(model::trim(name, CharClass::Whitespace) == name);
    let before = model::split(trailers, CharClass::Only(c));
    assert(git_history::trimmed(before.push(name)) =~= git_history::trimmed(before).push(name));
    assert(git_history::trimmed(before).push(name).drop_last() =~= git_history::trimmed(before));
    assert(git_history::trimmed(seq![name]) =~= seq![name]);
    assert(seq![name].drop_last() =~= Seq::empty());
    assert(model::nonempty(seq![name].drop_last()) =~= Seq::empty());
    assert(model::nonempty(seq![name]) =~= seq![name]);
}

// --- Logs --------------------------------------------------------------------

/// A header opens a commit behind those that were read.
pub proof fn headers_open_commits(
    lines: Seq<Seq<char>>,
    hash: Seq<char>,
    timestamp: nat,
    subject: Seq<char>,
    trailers: Seq<char>,
)
    requires
        lacks(hash, '\0'),
        lacks(subject, '\0'),
        timestamp <= i64::MAX,
    ensures
        ({
            let line = header_line(hash, timestamp, subject, trailers);
            let before = git_history::commits_in(lines);
            let after = git_history::commits_in(lines.push(line));
            &&& after.len() == before.len() + 1
            &&& after.drop_last() == before
            &&& after.last().timestamp == timestamp
            &&& after.last().subject == subject
            &&& after.last().files.len() == 0
        }),
{
    let line = header_line(hash, timestamp, subject, trailers);
    headers_are_read_back(hash, timestamp, subject, trailers);
    assert(lines.push(line).drop_last() =~= lines);
    let before = git_history::commits_in(lines);
    assert(git_history::commits_in(lines.push(line)).drop_last() =~= before);
}

/// A line of numstat adds its change behind those of the last commit, and changes
/// nothing else.
pub proof fn changes_belong_to_the_last_commit(
    lines: Seq<Seq<char>>,
    added: u64,
    removed: u64,
    path: Seq<char>,
)
    requires
        lacks(path, '\t'),
        lacks(path, '\0'),
        git_history::commits_in(lines).len() > 0,
    ensures
        ({
            let before = git_history::commits_in(lines);
            let after = git_history::commits_in(lines.push(numstat_line(added, removed, path)));
            &&& after.len() == before.len()
            &&& after.drop_last() == before.drop_last()
            &&& after.last().timestamp == before.last().timestamp
            &&& after.last().subject == before.last().subject
            &&& after.last().coauthors == before.last().coauthors
            &&& after.last().files == before.last().files.push(Change { added, removed, path })
        }),
{
    let line = numstat_line(added, removed, path);
    file_changes_are_read_back(added, removed, path);
    counts_are_read_back(added);
    counts_are_read_back(removed);
    let a = model::decimal(added as nat);
    let r = model::decimal(removed as nat);
    assert forall|i: int| 0 <= i < line.len() implies #[trigger] line[i] != '\0' by {
        if i < a.len() {
            assert(line[i] == a[i]);
        } else if a.len() < i < a.len() + 1 + r.len() {
            assert(line[i] == r[i - a.len() - 1]);
        } else if i > a.len() + 1 + r.len() {
            assert(line[i] == path[i - a.len() - r.len() - 2]);
        }
    }
    lemma_no_nul(line);
    assert(lines.push(line).drop_last() =~= lines);
    let before = git_history::commits_in(lines);
    let after = git_history::commits_in(lines.push(line));
    assert(after.drop_last() =~= before.drop_last());
}

/// A line without tabs and without NUL, such as an empty one, changes nothing.
pub proof fn other_lines_are_passed_over(lines: Seq<Seq<char>>, line: Seq<char>)
    requires
        lacks(line, '\t'),
        lacks(line, '\0'),
    ensures
        git_history::commits_in(lines.push(line)) == git_history::commits_in(lines),
{
    lemma_no_nul(line);
    lemma_one_piece(line, '\t');
    assert(lines.push(line).drop_last() =~= lines);
}

proof fn lemma_commits_have_headers(lines: Seq<Seq<char>>)
    ensures
        git_history::commits_in(lines).len() > 0 ==> exists|i: int|
            0 <= i < lines.len() && model::contains(#[trigger] lines[i], "\0"@),
    decreases lines.len(),
{
    if lines.len() > 0 {
        let rest = lines.drop_last();
        lemma_commits_have_headers(rest);
        if git_history::header(lines.last()) is Some {
            model::lemma_found(lines.last(), "\0"@);
            assert(model::contains(lines[lines.len() - 1], "\0"@));
        } else if git_history::commits_in(lines).len() > 0 {
            let i = choose|i: int|
                0 <= i < rest.len() && model::contains(#[trigger] rest[i], "\0"@);
            assert(lines[i] == rest[i]);
        }
    }
}

/// A log of which commits are read holds commits; one without a NUL holds none, and
/// none are read of it.
pub proof fn logs_with_commits_are_usable(raw: Seq<char>)
    ensures
        git_history::commits_in(model::lines(raw)).len() > 0 ==> git_history::has_commits(raw),
        !git_history::has_commits(raw) ==> git_history::commits_in(model::lines(raw)).len() == 0,
{
    lemma_commits_have_headers(model::lines(raw));
}

/// A header without trailers ends with its subject.
pub proof fn headers_may_end_with_their_subject(
    hash: Seq<char>,
    timestamp: nat,
    subject: Seq<char>,
)
    requires
        lacks(hash, '\0'),
        lacks(subject, '\0'),
        timestamp <= i64::MAX,
    ensures
        ({
            let read = git_history::header(
                hash.push('\0') + (model::decimal(timestamp).push('\0') + subject),
            );
            &&& read is Some
            &&& read->0.timestamp == timestamp
            &&& read->0.subject == subject
            &&& read->0.coauthors.len() == 0
            &&& read->0.files.len() == 0
        }),
{
    let digits = model::decimal(timestamp);
    counts_are_read_back(timestamp as u64);
    lemma_decimal(timestamp);
    assert(model::is_digit(digits[0]));
    lemma_split_at_nul(hash, digits.push('\0') + subject);
    lemma_split_at_nul(digits, subject);
    lemma_no_nul(subject);
}

/// What follows the path of a change behind another tab says nothing of it.
pub proof fn further_columns_say_nothing(
    added: u64,
    removed: u64,
    path: Seq<char>,
    rest: Seq<char>,
)
    requires
        lacks(path, '\t'),
        lacks(rest, '\t'),
    ensures
        git_history::file_line(numstat_line(added, removed, path).push('\t') + rest) == Some(
            Change { added, removed, path },
        ),
{
    let class = CharClass::Only('\t');
    let a = model::decimal(added as nat);
    let r = model::decimal(removed as nat);
    counts_are_read_back(added);
    counts_are_read_back(removed);
    lemma_one_piece(a, '\t');
    lemma_one_more_piece(a, r, '\t');
    lemma_one_more_piece(a.push('\t') + r, path, '\t');
    lemma_one_more_piece(numstat_line(added, removed, path), rest, '\t');
    let columns = model::split(numstat_line(added, removed, path).push('\t') + rest, class);
    assert(columns =~= seq![a, r, path, rest]);
}

/// A log is used where its command succeeded and commits are read of it; a command that
/// failed, was killed or did not run gives no log.
pub proof fn failed_commands_give_no_log(raw: Seq<char>)
    ensures
        git_history::commits_in(model::lines(raw)).len() > 0 ==> git_history::is_usable(
            RunOutcome::Finished { success: true },
            raw,
        ),
        raw.len() == 0 ==> !git_history::is_usable(
            RunOutcome::Finished { success: true },
            raw,
        ),
        !git_history::is_usable(RunOutcome::Finished { success: false }, raw),
        !git_history::is_usable(RunOutcome::NotRun, raw),
        !git_history::is_usable(RunOutcome::TimedOut, raw),
{
    logs_with_commits_are_usable(raw);
    if raw.len() == 0 {
        assert(raw =~= Seq::empty());
        assert(model::split(raw, CharClass::Only('\n')) =~= seq![Seq::<char>::empty()]);
        assert(model::lines(raw).len() == 0);
    }
}

} // verus!
