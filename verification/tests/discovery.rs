use rerust::detect::heuristics::{
    push_signal, truncate, Discovery, DiscoveryConfig, ISSUE_QUERIES, REPO_QUERIES,
};
use rerust::github::{
    apply_open_prs, apply_repo, header_u64, issue_search_url, languages_url, next_page,
    open_pr_url, order_languages, rate_limit_wait, react, repo_search_url, repo_url, Answer,
    IssueItem, Reaction, RepoItem,
};
use rerust::types::{Candidate, Signal};

fn repo(name: &str, url: &str, description: Option<&str>, stars: u64) -> RepoItem {
    RepoItem {
        full_name: name.into(),
        html_url: url.into(),
        description: description.map(str::to_string),
        stargazers_count: stars,
        forks_count: 4,
        open_issues_count: 9,
    }
}

fn issue(title: &str, repository: &str, pull_request: bool) -> IssueItem {
    IssueItem {
        title: title.into(),
        html_url: format!("https://x/{title}"),
        repository_url: repository.into(),
        pull_request,
    }
}

#[test]
fn every_query_has_a_label() {
    assert_eq!(REPO_QUERIES.len(), 23);
    assert_eq!(ISSUE_QUERIES.len(), 12);
    assert!(REPO_QUERIES.iter().all(|(q, label)| !q.is_empty() && !label.is_empty()));
    assert!(ISSUE_QUERIES.iter().all(|(q, _)| q.contains("is:issue") || q.contains("is:pull-request")));
    let config = DiscoveryConfig::default();
    assert_eq!((config.repo_pages, config.issue_pages, config.max_candidates), (3, 3, 500));
}

#[test]
fn evidence_is_added_once() {
    let mut c = Candidate::default();
    let s = Signal { kind: "issue".into(), detail: "d".into(), url: "u".into() };
    push_signal(&mut c, s.clone());
    push_signal(&mut c, s.clone());
    assert_eq!(c.signals.len(), 1);
    // Another kind is the same evidence; another page is not.
    push_signal(&mut c, Signal { kind: "pull-request".into(), ..s.clone() });
    assert_eq!(c.signals.len(), 1);
    push_signal(&mut c, Signal { url: "v".into(), ..s });
    assert_eq!(c.signals.len(), 2);
}

#[test]
fn titles_are_cut_with_an_ellipsis() {
    assert_eq!(truncate("häßlich", 7), "häßlich");
    assert_eq!(truncate("häßlich", 3), "häß…");
    assert_eq!(truncate("ab", 0), "…");
    assert_eq!(truncate("", 0), "");
}

#[test]
fn discovery_merges_by_name_and_orders_by_evidence() {
    let mut d = Discovery::new();
    d.add_repository(&repo("a/one", "https://a", None, 5), "first");
    d.add_repository(&repo("b/two", "https://b", Some("two"), 50), "first");
    d.add_repository(&repo("a/one", "https://a2", Some("one"), 3), "second");
    d.add_repository(&repo("a/one", "https://a3", Some("later"), 1), "second");
    d.add_issue(&issue("Port", "https://api.github.com/repos/c/three", true), "PR");
    d.add_issue(&issue("Port", "nowhere", false), "issue");
    d.add_issue(&issue("Wish", "https://api.github.com/repos/c/three", false), "issue");
    d.add_issue(&issue(&"x".repeat(130), "https://api.github.com/repos/d/four", false), "issue");

    assert_eq!(d.candidates.len(), 4);
    let out = d.finish(3);
    let names: Vec<&str> = out.iter().map(|c| c.full_name.as_str()).collect();
    assert_eq!(names, vec!["a/one", "c/three", "b/two"]);
    assert_eq!(out[0].html_url, "https://a3");
    assert_eq!(out[0].description.as_deref(), Some("one"));
    assert_eq!(out[0].stars, 5);
    assert_eq!(out[0].signals.len(), 3);
    assert_eq!(out[0].signals[0].kind, "repo-search");
    assert_eq!(out[1].signals[0].kind, "pull-request");
    assert_eq!(out[1].signals[0].detail, "PR: Port");
    assert_eq!(out[1].signals[1].kind, "issue");
    assert_eq!(d.finish(10).len(), 4);
    assert!(d.finish(10).iter().all(|c| !c.signals.is_empty()));
    assert_eq!(d.candidates[3].signals[0].detail, format!("issue: {}…", "x".repeat(120)));
}

#[test]
fn repositories_are_named_by_their_url() {
    assert_eq!(
        issue("t", "https://api.github.com/repos/o/n", false).repo_full_name().as_deref(),
        Some("o/n")
    );
    assert_eq!(issue("t", "x/repos/repos/o/n", false).repo_full_name().as_deref(), Some("o/n"));
    assert_eq!(issue("t", "x/repos/single", false).repo_full_name(), None);
    assert_eq!(issue("t", "o/n", false).repo_full_name().as_deref(), Some("o/n"));
    assert!(issue("t", "o/n", true).is_pull_request());
}

#[test]
fn queries_are_percent_encoded() {
    assert_eq!(
        repo_search_url("\"a b\" c++ é", 12),
        "https://api.github.com/search/repositories?q=%22a%20b%22%20c%2B%2B%20%C3%A9&sort=stars&order=desc&per_page=100&page=12"
    );
    assert_eq!(
        issue_search_url("is:issue-._~", 1),
        "https://api.github.com/search/issues?q=is%3Aissue-._~&per_page=100&page=1"
    );
    assert_eq!(
        open_pr_url("o/n"),
        "https://api.github.com/search/issues?q=repo%3Ao%2Fn%20type%3Apr%20state%3Aopen&per_page=1"
    );
    assert_eq!(repo_url("o/n"), "https://api.github.com/repos/o/n");
    assert_eq!(languages_url("o/n"), "https://api.github.com/repos/o/n/languages");
}

#[test]
fn paging_ends_with_a_short_page() {
    assert_eq!(next_page(1, 3, 100), Some(2));
    assert_eq!(next_page(1, 3, 99), None);
    assert_eq!(next_page(3, 3, 100), None);
}

fn answer(status: u16) -> Answer {
    Answer { status, retry_after: None, reset: None, remaining: None }
}

#[test]
fn answers_are_accepted_retried_or_refused() {
    assert_eq!(react(&answer(200), 0, 0), Reaction::Accept { pause: None });
    let empty = Answer { remaining: Some(0), reset: Some(110), ..answer(200) };
    assert_eq!(react(&empty, 0, 100), Reaction::Accept { pause: Some(11) });
    let full = Answer { remaining: Some(1), reset: Some(110), ..answer(200) };
    assert_eq!(react(&full, 0, 100), Reaction::Accept { pause: None });
    assert_eq!(react(&answer(403), 0, 0), Reaction::Retry { wait: 60 });
    assert_eq!(react(&answer(429), 4, 0), Reaction::Retry { wait: 60 });
    let waits: Vec<Reaction> = (0..5).map(|i| react(&answer(503), i, 0)).collect();
    let expected: Vec<Reaction> =
        [1, 2, 4, 8, 16].iter().map(|w| Reaction::Retry { wait: *w }).collect();
    assert_eq!(waits, expected);
    assert_eq!(react(&answer(404), 0, 0), Reaction::Refuse);
    assert_eq!(react(&answer(304), 0, 0), Reaction::Refuse);
}

#[test]
fn waits_stay_between_a_second_and_five_minutes() {
    let after = |seconds| Answer { retry_after: Some(seconds), reset: Some(5), ..answer(403) };
    assert_eq!(rate_limit_wait(&after(0), 0), 1);
    assert_eq!(rate_limit_wait(&after(42), 0), 42);
    assert_eq!(rate_limit_wait(&after(9999), 0), 300);
    let reset = |at| Answer { reset: Some(at), ..answer(403) };
    assert_eq!(rate_limit_wait(&reset(u64::MAX), 0), 300);
    assert_eq!(rate_limit_wait(&reset(299), 0), 300);
    assert_eq!(rate_limit_wait(&reset(298), 0), 299);
    assert_eq!(rate_limit_wait(&reset(7), 7), 60);
}

#[test]
fn header_numbers_are_trimmed() {
    assert_eq!(header_u64(" 42 "), Some(42));
    assert_eq!(header_u64("18446744073709551615"), Some(u64::MAX));
    assert_eq!(header_u64("18446744073709551616"), None);
    assert_eq!(header_u64("-1"), None);
    assert_eq!(header_u64(""), None);
}

#[test]
fn languages_come_most_bytes_first() {
    let langs = |pairs: &[(&str, u64)]| -> Vec<(String, u64)> {
        pairs.iter().map(|(l, n)| (l.to_string(), *n)).collect()
    };
    assert_eq!(
        order_languages(&langs(&[("C", 5), ("Go", 9), ("Rust", 9), ("Zig", 0)])),
        langs(&[("Go", 9), ("Rust", 9), ("C", 5), ("Zig", 0)])
    );
}

#[test]
fn metadata_fills_what_is_missing() {
    let mut c = Candidate { full_name: "o/n".into(), ..Default::default() };
    assert!(!apply_repo(&mut c, None));
    assert!(apply_repo(&mut c, Some(&repo("o/n", "https://u", Some("d"), 7))));
    assert_eq!((c.html_url.as_str(), c.description.as_deref()), ("https://u", Some("d")));
    assert_eq!((c.stars, c.forks, c.open_issues), (7, 4, 9));
    apply_open_prs(&mut c, 2);
    assert_eq!((c.open_prs, c.open_issues), (2, 7));
    apply_open_prs(&mut c, 50);
    assert_eq!((c.open_prs, c.open_issues), (50, 0));
    assert!(apply_repo(&mut c, Some(&repo("o/n", "https://v", Some("e"), 3))));
    assert_eq!((c.html_url.as_str(), c.description.as_deref(), c.stars), ("https://u", Some("d"), 7));
    assert!(apply_repo(&mut c, None));
}
