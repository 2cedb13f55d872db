//! Requests to the GitHub REST + Search API: what to ask, when to wait and what
//! to keep of the answers.
//!
//! Both primary and secondary rate limits are respected conservatively. The
//! Search API is limited to 30 requests/minute when authenticated (10/min
//! otherwise), so callers should paginate frugally.

use crate::order;
use crate::order::SortKey;
use crate::text;
use crate::text_model as model;
use crate::text_model::CharClass;
use crate::types;
use crate::types::Candidate;
use vstd::prelude::*;
use vstd::string::*;

verus! {

pub const API_ROOT: &'static str = "https://api.github.com";

/// A single repository result from the Search API or repo endpoint.
#[derive(Debug)]
pub struct RepoItem {
    pub full_name: String,
    pub html_url: String,
    pub description: Option<String>,
    pub stargazers_count: u64,
    pub forks_count: u64,
    /// Combined count of open issues *and* open pull requests.
    pub open_issues_count: u64,
}

impl Clone for RepoItem {
    fn clone(&self) -> (r: Self)
        ensures
            r == *self,
    {
        RepoItem {
            full_name: self.full_name.clone(),
            html_url: self.html_url.clone(),
            description: self.description.clone(),
            stargazers_count: self.stargazers_count,
            forks_count: self.forks_count,
            open_issues_count: self.open_issues_count,
        }
    }
}

/// A single issue/PR result from the issue Search API.
#[derive(Debug)]
pub struct IssueItem {
    pub title: String,
    pub html_url: String,
    /// API URL of the owning repository, e.g. `.../repos/owner/name`.
    pub repository_url: String,
    /// Set only when the issue is actually a pull request.
    pub pull_request: bool,
}

impl Clone for IssueItem {
    fn clone(&self) -> (r: Self)
        ensures
            r == *self,
    {
        IssueItem {
            title: self.title.clone(),
            html_url: self.html_url.clone(),
            repository_url: self.repository_url.clone(),
            pull_request: self.pull_request,
        }
    }
}

/// "owner/name" of an API repository URL: what stands behind the last
/// `/repos/`, if there is a slash in it.
pub open spec fn full_name_in(repository_url: Seq<char>) -> Option<Seq<char>> {
    let name = model::after_last_text(repository_url, "/repos/"@);
    if model::contains(name, "/"@) {
        Some(name)
    } else {
        None
    }
}

impl IssueItem {
    /// Extract "owner/name" from the API `repository_url`.
    pub fn repo_full_name(&self) -> (r: Option<String>)
        ensures
            model::opt_view(r) == full_name_in(self.repository_url@),
    {
        let name = text::after_last_text(self.repository_url.as_str(), "/repos/");
        if text::contains(name, "/") {
            Some(name.to_owned())
        } else {
            None
        }
    }

    pub fn is_pull_request(&self) -> (r: bool)
        ensures
            r == self.pull_request,
    {
        self.pull_request
    }
}

// --- Request URLs ------------------------------------------------------------

/// A byte that stands for itself in a URL.
pub open spec fn is_unreserved(b: u8) -> bool {
    ||| '0' as u8 <= b <= '9' as u8
    ||| 'A' as u8 <= b <= 'Z' as u8
    ||| 'a' as u8 <= b <= 'z' as u8
    ||| b == '-' as u8
    ||| b == '.' as u8
    ||| b == '_' as u8
    ||| b == '~' as u8
}

pub open spec fn hex_digit(d: int) -> char {
    if d < 10 {
        ('0' as int + d) as char
    } else {
        ('A' as int + d - 10) as char
    }
}

/// A byte in a URL: itself, or a percent sign and its two hex digits.
pub open spec fn encoded_byte(b: u8) -> Seq<char> {
    if is_unreserved(b) {
        seq![b as char]
    } else {
        seq!['%', hex_digit(b as int / 16), hex_digit(b as int % 16)]
    }
}

pub open spec fn percent_encoded(bytes: Seq<u8>) -> Seq<char>
    decreases bytes.len(),
{
    if bytes.len() == 0 {
        Seq::empty()
    } else {
        percent_encoded(bytes.drop_last()) + encoded_byte(bytes.last())
    }
}

/// A text as part of a URL's query.
pub open spec fn encoded(s: Seq<char>) -> Seq<char> {
    percent_encoded(vstd::utf8::encode_utf8(s))
}

/// `urlencoding::encode` writes every byte of the UTF-8 text as a percent sign
/// and two upper-case hex digits, except ASCII letters and digits and `-`, `.`,
/// `_`, `~`, which it leaves.
#[verifier::external_body]
fn url_encode(s: &str) -> (r: String)
    ensures
        r@ == encoded(s@),
{
    urlencoding::encode(s).into_owned()
}

/// The URL of a page of a repository search.
pub open spec fn repo_search_address(query: Seq<char>, page: u32) -> Seq<char> {
    API_ROOT@ + "/search/repositories?q="@ + encoded(query)
        + "&sort=stars&order=desc&per_page=100&page="@ + model::decimal(page as nat)
}

/// The URL of a page of an issue search.
pub open spec fn issue_search_address(query: Seq<char>, page: u32) -> Seq<char> {
    API_ROOT@ + "/search/issues?q="@ + encoded(query) + "&per_page=100&page="@ + model::decimal(
        page as nat,
    )
}

/// The URL of a search for a repository's open pull requests.
pub open spec fn open_pr_address(full_name: Seq<char>) -> Seq<char> {
    API_ROOT@ + "/search/issues?q="@ + encoded("repo:"@ + full_name + " type:pr state:open"@)
        + "&per_page=1"@
}

pub open spec fn repo_address(full_name: Seq<char>) -> Seq<char> {
    API_ROOT@ + "/repos/"@ + full_name
}

fn search_url(path: &str, query: &str, rest: &str) -> (r: String)
    ensures
        r@ == API_ROOT@ + path@ + encoded(query@) + rest@,
{
    let mut url = API_ROOT.to_owned();
    url.append(path);
    let query = url_encode(query);
    url.append(query.as_str());
    url.append(rest);
    url
}

/// The URL of a page of a repository search.
pub fn repo_search_url(query: &str, page: u32) -> (r: String)
    ensures
        r@ == repo_search_address(query@, page),
{
    let mut url = search_url(
        "/search/repositories?q=",
        query,
        "&sort=stars&order=desc&per_page=100&page=",
    );
    let number = text::decimal(page as u64);
    url.append(number.as_str());
    url
}

/// The URL of a page of an issue search.
pub fn issue_search_url(query: &str, page: u32) -> (r: String)
    ensures
        r@ == issue_search_address(query@, page),
{
    let mut url = search_url("/search/issues?q=", query, "&per_page=100&page=");
    let number = text::decimal(page as u64);
    url.append(number.as_str());
    url
}

/// The URL that counts open pull requests of "owner/name" via the search API.
///
/// The repo endpoint's `open_issues_count` lumps issues and PRs together, so
/// this cheap single-result search recovers the pure open-PR total.
pub fn open_pr_url(full_name: &str) -> (r: String)
    ensures
        r@ == open_pr_address(full_name@),
{
    let mut query = "repo:".to_owned();
    query.append(full_name);
    query.append(" type:pr state:open");
    search_url("/search/issues?q=", query.as_str(), "&per_page=1")
}

/// The URL of the metadata of "owner/name".
pub fn repo_url(full_name: &str) -> (r: String)
    ensures
        r@ == repo_address(full_name@),
{
    let mut url = API_ROOT.to_owned();
    url.append("/repos/");
    url.append(full_name);
    url
}

/// The URL of the language byte-breakdown of "owner/name".
pub fn languages_url(full_name: &str) -> (r: String)
    ensures
        r@ == repo_address(full_name@) + "/languages"@,
{
    let mut url = repo_url(full_name);
    url.append("/languages");
    url
}

/// The results of a full page.
pub const PAGE_SIZE: usize = 100;

/// The page that follows `page`, which held `count` results.
pub open spec fn page_after(page: u32, max_pages: u32, count: usize) -> Option<u32> {
    if count >= PAGE_SIZE && page < max_pages {
        Some((page + 1) as u32)
    } else {
        None
    }
}

/// The page to fetch after `page`, which held `count` results: the next one,
/// unless the page was not full or no more pages are wanted.
pub fn next_page(page: u32, max_pages: u32, count: usize) -> (r: Option<u32>)
    ensures
        r == page_after(page, max_pages, count),
        r == if count >= PAGE_SIZE && page < max_pages {
            Some((page + 1) as u32)
        } else {
            None
        },
{
    if count >= PAGE_SIZE && page < max_pages {
        Some(page + 1)
    } else {
        None
    }
}

// --- Rate limits -------------------------------------------------------------

/// What an answer says about itself.
#[derive(Debug, Clone, Copy, PartialEq, Eq, Structural)]
pub struct Answer {
    pub status: u16,
    /// `Retry-After`, in seconds.
    pub retry_after: Option<u64>,
    /// `X-RateLimit-Reset`, in seconds since the epoch.
    pub reset: Option<u64>,
    /// `X-RateLimit-Remaining`.
    pub remaining: Option<u64>,
}

/// What to do about an answer.
#[derive(Debug, Clone, Copy, PartialEq, Eq, Structural)]
pub enum Reaction {
    /// Use it, after a pause of some seconds where the quota is exhausted.
    Accept { pause: Option<u64> },
    /// Wait some seconds and ask again.
    Retry { wait: u64 },
    /// Give up.
    Refuse,
}

/// Attempts at one request.
pub const MAX_ATTEMPTS: u32 = 5;

pub open spec fn clamped(x: int) -> u64 {
    if x < 1 {
        1
    } else if x > 300 {
        300
    } else {
        x as u64
    }
}

/// The seconds to wait for the quota: what the answer asks for, or until the
/// quota is reset, between one second and five minutes; a minute where it says
/// nothing, as the search API refills every minute.
pub open spec fn wait_for_quota(answer: Answer, now: u64) -> u64 {
    match answer.retry_after {
        Some(seconds) => clamped(seconds as int),
        None => match answer.reset {
            Some(reset) => if reset > now {
                clamped(reset - now + 1)
            } else {
                60
            },
            None => 60,
        },
    }
}

pub open spec fn reaction_to(answer: Answer, attempt: u32, now: u64) -> Reaction {
    if 200 <= answer.status <= 299 {
        Reaction::Accept {
            pause: if answer.remaining == Some(0u64) {
                Some(wait_for_quota(answer, now))
            } else {
                None
            },
        }
    } else if answer.status == 403 || answer.status == 429 {
        Reaction::Retry { wait: wait_for_quota(answer, now) }
    } else if 500 <= answer.status <= 599 {
        Reaction::Retry { wait: vstd::arithmetic::power2::pow2(attempt as nat) as u64 }
    } else {
        Reaction::Refuse
    }
}

fn clamp_wait(seconds: u64) -> (r: u64)
    ensures
        r == clamped(seconds as int),
{
    if seconds < 1 {
        1
    } else if seconds > 300 {
        300
    } else {
        seconds
    }
}

/// Compute how long to wait based on `Retry-After` or `X-RateLimit-Reset`.
pub fn rate_limit_wait(answer: &Answer, now: u64) -> (r: u64)
    ensures
        r == wait_for_quota(*answer, now),
        1 <= r <= 300,
{
    if let Some(seconds) = answer.retry_after {
        return clamp_wait(seconds);
    }
    if let Some(reset) = answer.reset {
        if reset > now {
            let left: u64 = reset - now;
            return if left >= 300 {
                300
            } else {
                clamp_wait(left + 1)
            };
        }
    }
    // Fallback: search API refills every 60s.
    60
}

/// What to do about the answer to a request: respect rate limits, back off
/// exponentially on server errors, and give up on anything else.
pub fn react(answer: &Answer, attempt: u32, now: u64) -> (r: Reaction)
    requires
        attempt < MAX_ATTEMPTS,
    ensures
        r == reaction_to(*answer, attempt, now),
{
    if answer.status >= 200 && answer.status <= 299 {
        // If the current quota is exhausted, pause until reset.
        let pause = match answer.remaining {
            Some(0) => Some(rate_limit_wait(answer, now)),
            _ => None,
        };
        return Reaction::Accept { pause };
    }
    // Rate limited (primary or secondary) -> wait and retry.
    if answer.status == 403 || answer.status == 429 {
        return Reaction::Retry { wait: rate_limit_wait(answer, now) };
    }
    // Server-side hiccup -> exponential backoff.
    if answer.status >= 500 && answer.status <= 599 {
        proof {
            vstd::arithmetic::power2::lemma2_to64();
        }
        let backoff: u64 = if attempt == 0 {
            1
        } else if attempt == 1 {
            2
        } else if attempt == 2 {
            4
        } else if attempt == 3 {
            8
        } else {
            16
        };
        return Reaction::Retry { wait: backoff };
    }
    Reaction::Refuse
}

/// A number in a response header.
pub fn header_u64(value: &str) -> (r: Option<u64>)
    ensures
        match r {
            Some(n) => model::parse_unsigned(
                model::trim(value@, CharClass::Whitespace),
                u64::MAX as nat,
            ) == Some(n as nat),
            None => model::parse_unsigned(
                model::trim(value@, CharClass::Whitespace),
                u64::MAX as nat,
            ) is None,
        },
{
    text::parse_unsigned(text::trim(value, CharClass::Whitespace), u64::MAX)
}

// --- Candidate metadata ------------------------------------------------------

pub open spec fn language_keys(languages: Seq<(String, u64)>) -> Seq<SortKey> {
    Seq::new(
        languages.len(),
        |i: int|
            SortKey { first: (0 - languages[i].1) as i128, second: 0, third: 0, fourth: 0 },
    )
}

/// `r` holds the languages with the most bytes first; equals keep their order.
pub open spec fn most_bytes_first(languages: Seq<(String, u64)>, r: Seq<(String, u64)>) -> bool {
    exists|order: Seq<usize>| #[trigger]
        order::orders(language_keys(languages), order, languages.len() as int) && r == Seq::new(
            order.len(),
            |i: int| languages[order[i] as int],
        )
}

/// The languages of a repository, most bytes first.
pub fn order_languages(languages: &Vec<(String, u64)>) -> (r: Vec<(String, u64)>)
    ensures
        most_bytes_first(languages@, r@),
{
    let mut keys: Vec<SortKey> = Vec::new();
    let mut i: usize = 0;
    while i < languages.len()
        invariant
            i <= languages@.len(),
            keys@ == language_keys(languages@).take(i as int),
        decreases languages@.len() - i,
    {
        keys.push(
            SortKey { first: 0 - languages[i].1 as i128, second: 0, third: 0, fourth: 0 },
        );
        assert(keys@ =~= language_keys(languages@).take(i + 1));
        i += 1;
    }
    assert(keys@ =~= language_keys(languages@));
    let order = order::stable_order(&keys);
    let ghost wanted = Seq::new(order@.len(), |i: int| languages@[order@[i] as int]);
    let mut out: Vec<(String, u64)> = Vec::new();
    let mut j: usize = 0;
    while j < order.len()
        invariant
            j <= order@.len(),
            order@.len() == languages@.len(),
            forall|x: int| 0 <= x < order@.len() ==> (#[trigger] order@[x]) < languages@.len(),
            wanted == Seq::new(order@.len(), |i: int| languages@[order@[i] as int]),
            out@ == wanted.take(j as int),
        decreases order@.len() - j,
    {
        let k: usize = order[j];
        assert(order@[j as int] < languages@.len());
        out.push((languages[k].0.clone(), languages[k].1));
        assert(out@ =~= wanted.take(j + 1));
        j += 1;
    }
    assert(wanted.take(order@.len() as int) =~= wanted);
    out
}

/// A candidate of which nothing but its name is known.
pub open spec fn needs_metadata(candidate: Candidate) -> bool {
    candidate.stars == 0 && candidate.description is None
}

/// The candidate with what a repository lookup gives.
pub open spec fn with_repo(before: Candidate, repo: RepoItem, after: Candidate) -> bool {
    &&& after.full_name == before.full_name
    &&& after.html_url == if needs_metadata(before) {
        repo.html_url
    } else {
        before.html_url
    }
    &&& after.description == if needs_metadata(before) {
        repo.description
    } else {
        before.description
    }
    &&& after.stars == if before.stars >= repo.stargazers_count {
        before.stars
    } else {
        repo.stargazers_count
    }
    &&& after.forks == repo.forks_count
    &&& after.open_issues == repo.open_issues_count
    &&& after.open_prs == before.open_prs
    &&& after.languages@ == before.languages@
    &&& after.signals@ == before.signals@
}

/// A candidate stays after a lookup that found it, or did not.
pub open spec fn stays(candidate: Candidate, found: bool) -> bool {
    found || !needs_metadata(candidate)
}

/// Add the metadata of a repository lookup, if there is any. False when a
/// metadata-less candidate could not be looked up and should be skipped.
pub fn apply_repo(candidate: &mut Candidate, repo: Option<&RepoItem>) -> (r: bool)
    ensures
        r == stays(*old(candidate), repo is Some),
        match repo {
            Some(item) => r && with_repo(*old(candidate), *item, *final(candidate)),
            None => r == !needs_metadata(*old(candidate)) && *final(candidate) == *old(candidate),
        },
{
    let needs_metadata = candidate.stars == 0 && candidate.description.is_none();
    match repo {
        Some(item) => {
            if needs_metadata {
                candidate.html_url = item.html_url.clone();
                candidate.description = item.description.clone();
            }
            if item.stargazers_count > candidate.stars {
                candidate.stars = item.stargazers_count;
            }
            candidate.forks = item.forks_count;
            candidate.open_issues = item.open_issues_count;
            true
        },
        None => !needs_metadata,
    }
}

/// The open issues without the pull requests among them.
pub open spec fn issues_alone(open: u64, prs: u64) -> u64 {
    if open >= prs {
        (open - prs) as u64
    } else {
        0
    }
}

/// Set the number of open pull requests, and take them out of the open issues.
pub fn apply_open_prs(candidate: &mut Candidate, prs: u64)
    ensures
        final(candidate).open_prs == prs,
        final(candidate).open_issues == issues_alone(old(candidate).open_issues, prs),
        final(candidate).open_issues == if old(candidate).open_issues >= prs {
            old(candidate).open_issues - prs
        } else {
            0
        },
        types::same_candidate(
            *final(candidate),
            Candidate {
                open_prs: final(candidate).open_prs,
                open_issues: final(candidate).open_issues,
                ..*old(candidate)
            },
        ),
{
    candidate.open_prs = prs;
    candidate.open_issues = if candidate.open_issues >= prs {
        candidate.open_issues - prs
    } else {
        0
    };
}

// --- Laws --------------------------------------------------------------------

/// An encoded text is made of characters that stand for themselves in a URL and
/// of percent signs: it cannot end the query or begin another part.
pub proof fn encoded_text_stays_in_the_query(bytes: Seq<u8>, i: int)
    requires
        0 <= i < percent_encoded(bytes).len(),
    ensures
        ({
            let c = percent_encoded(bytes)[i];
            c == '%' || (c as int) < 128 && is_unreserved(c as u8)
        }),
    decreases bytes.len(),
{
    if bytes.len() > 0 {
        let before = percent_encoded(bytes.drop_last());
        if i < before.len() {
            encoded_text_stays_in_the_query(bytes.drop_last(), i);
        } else {
            assert(percent_encoded(bytes)[i] == encoded_byte(bytes.last())[i - before.len()]);
        }
    }
}

/// Ordered languages are those that were given, the largest first.
pub proof fn languages_fall_in_size(languages: Seq<(String, u64)>, r: Seq<(String, u64)>)
    requires
        most_bytes_first(languages, r),
    ensures
        r.len() == languages.len(),
        forall|i: int, j: int| 0 <= i < j < r.len() ==> (#[trigger] r[i]).1 >= (#[trigger] r[j]).1,
        forall|i: int| 0 <= i < r.len() ==> languages.contains(#[trigger] r[i]),
        forall|i: int| 0 <= i < languages.len() ==> r.contains(#[trigger] languages[i]),
{
    let keys = language_keys(languages);
    let order = choose|order: Seq<usize>| #[trigger]
        order::orders(keys, order, languages.len() as int) && r == Seq::new(
            order.len(),
            |i: int| languages[order[i] as int],
        );
    order::an_order_is_a_permutation(keys, order);
    assert forall|i: int, j: int| 0 <= i < j < r.len() implies (#[trigger] r[i]).1 >= (
    #[trigger] r[j]).1 by {
        assert(order::comes_before(keys, order[i] as int, order[j] as int));
    }
    assert forall|i: int| 0 <= i < languages.len() implies r.contains(#[trigger] languages[i]) by {
        assert(order::lists_item(order, i));
        let k = choose|k: int| 0 <= k < order.len() && #[trigger] order[k] == i;
        assert(r[k] == languages[i]);
    }
}

/// No wait for a quota is longer than five minutes or shorter than a second.
pub proof fn quota_waits_are_bounded(answer: Answer, now: u64)
    ensures
        1 <= wait_for_quota(answer, now) <= 300,
{
}

} // verus!
