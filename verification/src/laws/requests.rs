//! Laws of the requests to the GitHub API.

use crate::github;
use crate::github::{Answer, Reaction, RepoItem};
use crate::laws::log;
use crate::laws::texts;
use crate::text_model as model;
use crate::text_model::CharClass;
use crate::types::Candidate;
use vstd::prelude::*;
use vstd::string::*;

verus! {

// --- Names and addresses -----------------------------------------------------

/// The name of a repository is read back from its address.
pub proof fn names_are_read_back(name: Seq<char>)
    requires
        model::contains(name, "/"@),
        !model::contains(seq!['/'] + name, "/repos/"@),
    ensures
        github::full_name_in(github::repo_address(name)) == Some(name),
{
    let root = github::API_ROOT@;
    let p = "/repos/"@;
    let s = github::repo_address(name);
    let n = root.len() as int;
    reveal_strlit("/repos/");
    assert(s.subrange(n, n + 7) =~= p);
    assert(model::matches_at(s, p, n));
    assert forall|j: int| n < j implies !model::matches_at(s, p, j) by {
        if model::matches_at(s, p, j) {
            let found = s.subrange(j, j + 7);
            if j >= n + 6 {
                let tail = seq!['/'] + name;
                assert(tail.subrange(j - n - 6, j - n + 1) =~= found);
                assert(model::matches_at(tail, p, j - n - 6));
            } else {
                assert(found[0] == s[j]);
                assert(s[j] == p[j - n]);
            }
        }
    }
    assert(model::last_match(s, p, n));
    let found = choose|i: int| model::last_match(s, p, i);
    assert(model::last_match(s, p, found));
    assert(found == n) by {
        if found < n {
            assert(!model::matches_at(s, p, n));
        } else if found > n {
            assert(!model::matches_at(s, p, found));
        }
    }
    assert(s.skip(n + 7) =~= name);
}

/// The value of a digit in base sixteen.
pub open spec fn hex_value(c: char) -> int {
    if '0' <= c <= '9' {
        c as int - '0' as int
    } else {
        c as int - 'A' as int + 10
    }
}

/// One more byte is one more character, or a percent sign and two digits that give
/// the byte back; letters, digits and a few marks stand for themselves.
pub proof fn bytes_are_read_back(bytes: Seq<u8>, b: u8)
    ensures
        ({
            let before = github::percent_encoded(bytes);
            let after = github::percent_encoded(bytes.push(b));
            let n = before.len() as int;
            let plain = 48 <= b <= 57 || 65 <= b <= 90 || 97 <= b <= 122 || b == 45 || b == 46 || b
                == 95 || b == 126;
            &&& after.take(n) == before
            &&& plain ==> after.len() == n + 1 && after[n] as int == b
            &&& !plain ==> after.len() == n + 3 && after[n] == '%' && hex_value(after[n + 1]) * 16
                + hex_value(after[n + 2]) == b
        }),
        github::percent_encoded(Seq::empty()).len() == 0,
{
    assert(bytes.push(b).drop_last() =~= bytes);
    let before = github::percent_encoded(bytes);
    assert((before + github::encoded_byte(b)).take(before.len() as int) =~= before);
    let (high, low) = (b as int / 16, b as int % 16);
    assert(0 <= high < 16 && 0 <= low < 16 && high * 16 + low == b);
    assert(hex_value(github::hex_digit(high)) == high);
    assert(hex_value(github::hex_digit(low)) == low);
}

/// Pages are fetched one after the other, after a full page of a hundred results and
/// up to as many as are wanted.
pub proof fn full_pages_are_followed(page: u32, max_pages: u32, count: usize)
    ensures
        count >= 100 && page < max_pages ==> {
            let next = github::page_after(page, max_pages, count);
            next is Some && next->0 == page + 1 && next->0 <= max_pages
        },
        count < 100 ==> github::page_after(page, max_pages, count) is None,
        page >= max_pages ==> github::page_after(page, max_pages, count) is None,
{
}

// --- Waiting -----------------------------------------------------------------

/// What an answer asks to wait is waited, exactly where it is between a second and
/// five minutes, whatever else the answer says.
pub proof fn wishes_to_wait_are_met(answer: Answer, now: u64, seconds: u64)
    requires
        answer.retry_after == Some(seconds),
    ensures
        1 <= seconds <= 300 ==> github::wait_for_quota(answer, now) == seconds,
        seconds == 0 ==> github::wait_for_quota(answer, now) == 1,
        seconds > 300 ==> github::wait_for_quota(answer, now) == 300,
{
}

/// Otherwise the wait ends a second after the quota is reset, in five minutes at
/// the latest; and in a minute where the reset is past or unknown.
pub proof fn resets_are_awaited(answer: Answer, now: u64)
    requires
        answer.retry_after is None,
    ensures
        answer.reset matches Some(reset) ==> {
            &&& now < reset < now + 300 ==> now + github::wait_for_quota(answer, now) == reset + 1
            &&& reset >= now + 300 ==> github::wait_for_quota(answer, now) == 300
            &&& reset <= now ==> github::wait_for_quota(answer, now) == 60
        },
        answer.reset is None ==> github::wait_for_quota(answer, now) == 60,
{
}

/// An answer is accepted exactly where its status is a success, after a pause
/// exactly where nothing of the quota remains.
pub proof fn successes_are_accepted(answer: Answer, attempt: u32, now: u64)
    ensures
        github::reaction_to(answer, attempt, now) is Accept <==> 200 <= answer.status <= 299,
        github::reaction_to(answer, attempt, now) matches Reaction::Accept { pause } ==> {
            &&& pause is Some <==> answer.remaining == Some(0u64)
            &&& pause matches Some(seconds) ==> seconds == github::wait_for_quota(answer, now)
        },
{
}

/// A limited request is asked again when the quota allows it, and one that the
/// server failed after twice as long each time; nothing else is asked again.
pub proof fn failures_are_retried(answer: Answer, attempt: u32, now: u64)
    requires
        attempt < 4,
    ensures
        answer.status == 403 || answer.status == 429 ==> github::reaction_to(answer, attempt, now)
            == (Reaction::Retry { wait: github::wait_for_quota(answer, now) }),
        500 <= answer.status <= 599 ==> {
            let sooner = github::reaction_to(answer, attempt, now);
            let later = github::reaction_to(answer, (attempt + 1) as u32, now);
            &&& sooner is Retry && later is Retry
            &&& later->wait == 2 * sooner->wait
            &&& github::reaction_to(answer, 0, now) == (Reaction::Retry { wait: 1 })
        },
        !(200 <= answer.status <= 299) && answer.status != 403 && answer.status != 429 && !(500
            <= answer.status <= 599) ==> github::reaction_to(answer, attempt, now)
            == Reaction::Refuse,
{
    vstd::arithmetic::power2::lemma2_to64();
}

/// A number in a header is read back, with white space around it or without.
pub proof fn header_numbers_are_read_back(n: u64)
    ensures
        ({
            let digits = model::decimal(n as nat);
            &&& model::parse_unsigned(
                model::trim(digits, CharClass::Whitespace),
                u64::MAX as nat,
            ) == Some(n as nat)
            &&& model::parse_unsigned(
                model::trim((seq![' '] + digits).push(' '), CharClass::Whitespace),
                u64::MAX as nat,
            ) == Some(n as nat)
        }),
{
    reveal(model::is_whitespace);
    let digits = model::decimal(n as nat);
    log::lemma_decimal(n as nat);
    texts::digits_are_words(n as nat);
    texts::words_are_words(digits);
    assert(model::is_digit(digits[0]));
    let spaced = (seq![' '] + digits).push(' ');
    assert(spaced.drop_first() =~= digits.push(' '));
    assert(digits.push(' ')[0] == digits[0]);
    assert(!model::is_whitespace(digits[0]));
    assert(model::trim_start(digits.push(' '), CharClass::Whitespace) == digits.push(' '));
    assert(spaced[0] == ' ');
    assert(model::trim_start(spaced, CharClass::Whitespace) == digits.push(' '));
    assert(digits.push(' ').drop_last() =~= digits);
    assert(!model::is_whitespace(digits[digits.len() - 1]));
    assert(model::trim_end(digits, CharClass::Whitespace) == digits);
}

// --- Candidates --------------------------------------------------------------

/// A lookup never takes stars away, and gives the counts as they are now. It fills
/// in what is unknown of a candidate, and leaves what is known.
pub proof fn lookups_complete_candidates(before: Candidate, repo: RepoItem, after: Candidate)
    requires
        github::with_repo(before, repo, after),
    ensures
        after.stars >= before.stars,
        after.stars >= repo.stargazers_count,
        after.stars == before.stars || after.stars == repo.stargazers_count,
        after.forks == repo.forks_count,
        after.open_issues == repo.open_issues_count,
        after.full_name == before.full_name,
        after.signals@ == before.signals@,
        after.languages@ == before.languages@,
        before.description is Some ==> after.description == before.description && after.html_url
            == before.html_url,
        before.stars > 0 ==> after.description == before.description && after.html_url
            == before.html_url,
        before.stars == 0 && before.description is None ==> after.description == repo.description
            && after.html_url == repo.html_url,
{
}

/// The open issues of a repository are issues and pull requests together: what is
/// left of them and the pull requests are as many as before.
pub proof fn pull_requests_are_no_issues(open: u64, prs: u64)
    ensures
        prs <= open ==> github::issues_alone(open, prs) + prs == open,
        prs > open ==> github::issues_alone(open, prs) == 0,
{
}

/// A candidate that is not found stays where its stars or its description are known,
/// and one that is found stays in any case.
pub proof fn known_candidates_stay(candidate: Candidate)
    ensures
        github::stays(candidate, true),
        candidate.stars > 0 || candidate.description is Some ==> github::stays(candidate, false),
        candidate.stars == 0 && candidate.description is None ==> !github::stays(
            candidate,
            false,
        ),
{
}

} // verus!
