use rerust::detect::git_history::{
    clone_args, is_ignored_path, is_usable_log, language_from_path, log_contains_commits,
    next_step, parse_numstat_log, succeeded, FetchEvent, FetchPlan, FetchStep, RunOutcome,
};

#[test]
fn parses_numstat_with_binary_dash() {
    let raw = "\
abc\x001700000000\x00initial\x00
100\t0\tmain.rs
def\x001700100000\x00add logo\x00Cursor Agent <cursoragent@cursor.com>\x01Claude <noreply@anthropic.com>
-\t-\tlogo.png
10\t5\tlib.py
";
    let commits = parse_numstat_log(raw);
    assert_eq!(commits.len(), 2);
    assert!(commits[0].coauthors.is_empty());
    assert_eq!(commits[0].files.len(), 1);
    assert_eq!(commits[1].files.len(), 2);
    assert_eq!(commits[1].files[1].path, "lib.py");
    let (_, rest) = raw.split_once('\x01').unwrap();
    let second = rest.lines().next().unwrap();
    assert!(second.ends_with(" <noreply@anthropic.com>"));
    assert_eq!(
        commits[1].coauthors,
        vec!["Cursor Agent <cursoragent@cursor.com>".to_string(), second.to_string()]
    );
}

#[test]
fn maps_extensions_and_skips_lockfiles() {
    assert_eq!(language_from_path("src/main.rs"), Some("Rust"));
    assert_eq!(language_from_path("foo.c"), Some("C"));
    assert_eq!(language_from_path("Cargo.lock"), None);
    assert!(is_ignored_path("README.md"));
}

#[test]
fn headers_without_a_timestamp_are_no_headers() {
    let raw = "3\t1\tearly.rs\nabc\0soon\0title\0\n\nabc\0-5\0title: more\n1\t2\n7\tx\ta b.rs\r\n";
    let commits = parse_numstat_log(raw);
    assert_eq!(commits.len(), 1);
    assert_eq!(commits[0].timestamp, -5);
    assert_eq!(commits[0].subject, "title: more");
    assert_eq!(commits[0].files.len(), 1);
    assert_eq!(commits[0].files[0].added, 7);
    assert_eq!(commits[0].files[0].removed, 0);
    assert_eq!(commits[0].files[0].path, "a b.rs");
    assert!(parse_numstat_log("").is_empty());
}

#[test]
fn logs_with_commits_hold_a_nul() {
    assert!(log_contains_commits("x\na\0b"));
    assert!(!log_contains_commits("x\nab\n"));
    assert!(!log_contains_commits(""));
}

#[test]
fn bare_files_and_unknown_extensions() {
    assert_eq!(language_from_path("src/Makefile"), Some("Makefile"));
    assert_eq!(language_from_path("Dockerfile"), Some("Dockerfile"));
    assert_eq!(language_from_path("LICENSE"), None);
    assert_eq!(language_from_path("a/b.RS"), None);
    assert_eq!(language_from_path("x.tar.tsx"), Some("TypeScript"));
    assert_eq!(language_from_path("x/node_modules/y.js"), None);
    assert_eq!(language_from_path("X/VENDOR/y.go"), None);
    assert_eq!(language_from_path("lib.min.js"), None);
    assert_eq!(language_from_path("a.mm"), Some("Objective-C"));
    assert_eq!(language_from_path("a.unknown"), None);
}

#[test]
fn clone_arguments_follow_the_strategy() {
    assert_eq!(
        clone_args(false, 0, "https://x/y", "/tmp/z").unwrap(),
        vec!["clone", "--depth", "8000", "--single-branch", "--quiet", "https://x/y", "/tmp/z"]
    );
    assert_eq!(
        clone_args(true, 3, "u", "d").unwrap(),
        vec!["clone", "--shallow-since=10 years ago", "--single-branch", "--quiet", "u", "d"]
    );
    assert!(clone_args(false, 4, "u", "d").is_none());
    assert!(clone_args(true, 5, "u", "d").is_some());
    assert!(clone_args(true, 6, "u", "d").is_none());
}

#[test]
fn fetching_goes_through_the_strategies_within_its_budget() {
    let plan = FetchPlan { per_step: 10, repo_budget: 25, macro_mode: false };
    assert_eq!(next_step(&plan, FetchEvent::Started, 0), FetchStep::Clone { strategy: 0, limit: 10 });
    assert_eq!(
        next_step(&plan, FetchEvent::Cloned { strategy: 0, success: false }, 10),
        FetchStep::Clear { strategy: 0 }
    );
    assert_eq!(
        next_step(&plan, FetchEvent::Cleared { strategy: 0 }, 20),
        FetchStep::Clone { strategy: 1, limit: 5 }
    );
    assert_eq!(
        next_step(&plan, FetchEvent::Cloned { strategy: 1, success: true }, 24),
        FetchStep::Log { strategy: 1, limit: 1 }
    );
    assert_eq!(
        next_step(&plan, FetchEvent::Cloned { strategy: 1, success: true }, 25),
        FetchStep::Failed
    );
    assert_eq!(
        next_step(&plan, FetchEvent::Logged { strategy: 1, usable: true }, 24),
        FetchStep::Found
    );
    assert_eq!(
        next_step(&plan, FetchEvent::Logged { strategy: 1, usable: false }, 24),
        FetchStep::Clear { strategy: 1 }
    );
    assert_eq!(next_step(&plan, FetchEvent::Cleared { strategy: 1 }, 25), FetchStep::Failed);
    assert_eq!(next_step(&plan, FetchEvent::Cleared { strategy: 3 }, 1), FetchStep::Failed);
    assert_eq!(
        next_step(&plan, FetchEvent::Cleared { strategy: usize::MAX }, 1),
        FetchStep::Failed
    );
}

#[test]
fn commands_succeed_only_when_they_end_well() {
    assert!(succeeded(RunOutcome::Finished { success: true }));
    assert!(!succeeded(RunOutcome::Finished { success: false }));
    assert!(!succeeded(RunOutcome::NotRun));
    assert!(!succeeded(RunOutcome::TimedOut));
    assert!(is_usable_log(RunOutcome::Finished { success: true }, "a\0"));
    assert!(!is_usable_log(RunOutcome::Finished { success: true }, "a"));
    assert!(!is_usable_log(RunOutcome::TimedOut, "a\0"));
}
