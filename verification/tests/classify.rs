use rerust::detect::classify::{
    classify, extract_named_origin, has_identity_continuity, has_strong_rewrite_signal,
    named_origin, signal_title_body, ProjectKind,
};
use rerust::detect::commits::LanguageAnalysis;
use rerust::detect::transitions::HistoryAnalysis;
use rerust::double::Double;
use rerust::types::{Candidate, Signal};

fn double(x: f64) -> Double {
    Double { bits: x.to_bits() }
}

fn no_history() -> HistoryAnalysis {
    HistoryAnalysis::default()
}

fn rising_rust_history(from: &str) -> HistoryAnalysis {
    HistoryAnalysis {
        strong_transition: true,
        rust_pct_before: Some(double(8.0)),
        rust_pct_after: Some(double(82.0)),
        transition_magnitude: Some(double(74.0)),
        from_language: Some(from.into()),
        total_commits: 500,
        ..Default::default()
    }
}

fn candidate(description: &str, signals: Vec<Signal>) -> Candidate {
    Candidate {
        description: Some(description.to_string()),
        signals,
        ..Default::default()
    }
}

fn named(full_name: &str, description: &str) -> Candidate {
    Candidate {
        full_name: full_name.into(),
        description: Some(description.into()),
        ..Default::default()
    }
}

fn repo_signal(detail: &str) -> Signal {
    Signal {
        kind: "repo-search".into(),
        detail: detail.into(),
        url: "https://example".into(),
    }
}

fn analysis(rust_pct: f64, original: Option<&str>, primary: bool) -> LanguageAnalysis {
    LanguageAnalysis {
        rust_percentage: double(rust_pct),
        original_language: original.map(str::to_string),
        rust_is_primary: primary,
    }
}

#[test]
fn script_kit_same_product_with_history_is_rewrite() {
    let c = named(
        "johnlindquist/script-kit-next",
        "Script Kit rewritten in Rust using GPUI",
    );
    let a = analysis(85.0, Some("TypeScript"), true);
    assert!(has_identity_continuity(&c));
    assert_eq!(
        classify(&c, &a, &rising_rust_history("JavaScript")),
        ProjectKind::Rewrite
    );
}

#[test]
fn falkordb_without_commit_history_is_replacement() {
    let c = named(
        "FalkorDB/falkordb-rs-next-gen",
        "The next-generation FalkorDB engine rewritten in Rust.",
    );
    let a = analysis(44.0, Some("Python"), true);
    assert!(has_identity_continuity(&c));
    assert_eq!(classify(&c, &a, &no_history()), ProjectKind::Replacement);
}

#[test]
fn falkordb_with_commit_history_is_rewrite() {
    let c = named(
        "FalkorDB/falkordb-rs-next-gen",
        "The next-generation FalkorDB engine rewritten in Rust.",
    );
    let a = analysis(44.0, Some("Python"), true);
    assert_eq!(
        classify(&c, &a, &rising_rust_history("Python")),
        ProjectKind::Rewrite
    );
}

#[test]
fn always_rust_same_product_claim_is_replacement_without_history() {
    let c = named(
        "BurntSushi/ripgrep",
        "ripgrep rewritten in Rust — a line-oriented search tool",
    );
    let a = analysis(98.0, None, true);
    assert_eq!(classify(&c, &a, &no_history()), ProjectKind::Replacement);
}

#[test]
fn coreutils_style_rewrite_of_self_is_rewrite() {
    let c = named(
        "uutils/coreutils",
        "Cross-platform Rust rewrite of the GNU coreutils",
    );
    let a = analysis(60.0, Some("C"), true);
    assert!(has_identity_continuity(&c));
    assert_eq!(
        classify(&c, &a, &rising_rust_history("C")),
        ProjectKind::Rewrite
    );
}

#[test]
fn wat_dropin_for_wakatime_is_replacement_even_with_history() {
    let c = named(
        "mzhang28/wat",
        "self-hosted drop-in replacement for wakatime, a time-tracking service",
    );
    let a = analysis(94.0, Some("Go"), true);
    assert!(!has_identity_continuity(&c));
    assert_eq!(
        classify(&c, &a, &rising_rust_history("Go")),
        ProjectKind::Replacement
    );
}

#[test]
fn cj_dropin_for_jc_is_replacement() {
    let c = named(
        "zhongweili/cj",
        "A fast, drop-in replacement for jc, rewritten in Rust.",
    );
    let a = analysis(99.0, None, true);
    assert_eq!(classify(&c, &a, &no_history()), ProjectKind::Replacement);
}

#[test]
fn miemietron_dropin_for_mihomo_is_replacement() {
    let c = named(
        "xwings/miemietron",
        "Drop-in replacement for mihomo (Clash Meta), rewritten in Rust.",
    );
    let a = analysis(99.0, None, true);
    assert_eq!(classify(&c, &a, &no_history()), ProjectKind::Replacement);
}

#[test]
fn ruannoy_port_is_replacement() {
    let c = named(
        "hanabi1224/RuAnnoy",
        "Rust port of annoy (https://github.com/spotify/annoy)",
    );
    let a = analysis(64.0, Some("C#"), true);
    assert_eq!(classify(&c, &a, &no_history()), ProjectKind::Replacement);
}

#[test]
fn pounce_port_is_replacement() {
    let c = named("jkitchin/pounce", "Pure-Rust port of Ipopt (NLP/IPM solver)");
    let a = analysis(66.0, Some("Python"), true);
    assert_eq!(classify(&c, &a, &no_history()), ProjectKind::Replacement);
}

#[test]
fn rvface_does_not_get_identity_from_face_substring() {
    let c = named(
        "ruvnet/rvFACE",
        "Rust port of Faceplugin's open-source Face-Recognition-SDK.",
    );
    assert!(!has_identity_continuity(&c));
    let a = analysis(60.0, Some("TypeScript"), true);
    assert_eq!(classify(&c, &a, &no_history()), ProjectKind::Replacement);
}

#[test]
fn fastpathpicker_clone_is_replacement() {
    let c = named(
        "devinjeon/FastPathPicker",
        "fpp2: Facebook PathPicker (fpp) rewritten in Rust — drop-in replacement.",
    );
    let a = analysis(56.0, Some("Shell"), true);
    assert_eq!(classify(&c, &a, &no_history()), ProjectKind::Replacement);
}

#[test]
fn pzoom_port_of_psalm_is_replacement() {
    let c = named(
        "muglug/pzoom",
        "A fast experimental PHP static analyzer written in Rust, a port of Psalm",
    );
    let a = analysis(76.0, Some("PHP"), true);
    assert_eq!(classify(&c, &a, &no_history()), ProjectKind::Replacement);
}

#[test]
fn ripgrep_style_is_replacement() {
    let c = candidate(
        "a faster alternative to grep",
        vec![repo_signal("repo is a drop-in replacement written in Rust")],
    );
    let a = analysis(98.0, None, true);
    assert_eq!(classify(&c, &a, &no_history()), ProjectKind::Replacement);
}

#[test]
fn yjs_port_without_identity_is_replacement() {
    let c = named("y-crdt/y-crdt", "Rust port of Yjs");
    let a = analysis(76.0, Some("C++"), true);
    assert_eq!(classify(&c, &a, &no_history()), ProjectKind::Replacement);
}

#[test]
fn wplusplus_toy_without_identity_is_neither_or_replacement() {
    let c = named(
        "sinisterMage/WPlusPlus",
        "A Python-style scripting language rewritten in Rust & LLVM.",
    );
    let a = analysis(64.0, Some("C#"), true);
    assert!(!has_identity_continuity(&c));
    let kind = classify(&c, &a, &rising_rust_history("C#"));
    assert!(
        kind == ProjectKind::Replacement || kind == ProjectKind::Neither,
        "got {kind:?}"
    );
}

#[test]
fn linux_driver_tutorial_makefile_is_not_rewrite() {
    let c = named(
        "d0u9/Linux-Device-Driver-Rust",
        "A try to follow the rust port in Linux kernel in driver development.",
    );
    let a = analysis(62.0, Some("Makefile"), true);
    let hist = HistoryAnalysis {
        strong_transition: true,
        rust_pct_before: Some(double(33.0)),
        rust_pct_after: Some(double(60.0)),
        transition_magnitude: Some(double(27.0)),
        from_language: Some("Makefile".into()),
        total_commits: 31,
        ..Default::default()
    };
    assert_ne!(classify(&c, &a, &hist), ProjectKind::Rewrite);
}

#[test]
fn rust_pretty_assertions_is_neither() {
    let c = candidate(
        "Overwrite `assert_eq!` with a drop-in replacement, adding a colorful diff.",
        vec![],
    );
    let a = analysis(97.0, None, true);
    assert_eq!(classify(&c, &a, &no_history()), ProjectKind::Neither);
}

#[test]
fn helix_style_bare_rewrite_is_neither() {
    let c = candidate(
        "A post-modern modal text editor.",
        vec![repo_signal("repo mentions \"rewrite in Rust\"")],
    );
    let a = analysis(98.0, None, true);
    assert_eq!(classify(&c, &a, &no_history()), ProjectKind::Neither);
}

#[test]
fn extracts_named_origin() {
    assert_eq!(extract_named_origin("rust port of yjs").as_deref(), Some("yjs"));
    assert_eq!(
        extract_named_origin("drop-in replacement for gnu sed, written in rust").as_deref(),
        Some("gnu sed")
    );
}

#[test]
fn coreutils_origin_ignores_signal_boilerplate() {
    let c = candidate(
        "Cross-platform Rust rewrite of the GNU coreutils",
        vec![repo_signal("repo describes a rewrite of a named project")],
    );
    assert_eq!(named_origin(&c).as_deref(), Some("gnu coreutils"));
}

#[test]
fn origin_stops_at_repo_boilerplate() {
    assert_eq!(
        extract_named_origin(
            "cross-platform rust rewrite of the gnu coreutils repo describes a rewrite of a named project"
        )
        .as_deref(),
        Some("gnu coreutils")
    );
}

#[test]
fn issue_on_product_repo_with_migration_pr_is_rewrite() {
    let mut c = named("oven-sh/bun", "Incredibly fast JavaScript runtime");
    c.signals.push(Signal {
        kind: "pull-request".into(),
        detail: "PR titled about rewriting in Rust: Rewrite Bun in Rust".into(),
        url: "https://github.com/oven-sh/bun/pull/30412".into(),
    });
    let a = analysis(70.0, Some("Zig"), true);
    assert!(has_identity_continuity(&c));
    // Product migration PR is enough even when commit history is weak/empty.
    assert_eq!(classify(&c, &a, &no_history()), ProjectKind::Rewrite);
    assert_eq!(
        classify(&c, &a, &rising_rust_history("Zig")),
        ProjectKind::Rewrite
    );
}

#[test]
fn bun_multiple_migration_prs_still_rewrite() {
    let mut c = named("oven-sh/bun", "Incredibly fast JavaScript runtime");
    c.signals.push(Signal {
        kind: "pull-request".into(),
        detail: "PR titled about rewriting in Rust: Rewrite Bun in Rust".into(),
        url: "https://github.com/oven-sh/bun/pull/30412".into(),
    });
    c.signals.push(Signal {
        kind: "pull-request".into(),
        detail: "PR titled about migrating to Rust: refactor: migrate from zig to rust"
            .into(),
        url: "https://github.com/oven-sh/bun/pull/30698".into(),
    });
    let a = analysis(70.0, Some("Zig"), true);
    assert_eq!(classify(&c, &a, &no_history()), ProjectKind::Rewrite);
}

#[test]
fn wishlist_issue_alone_is_not_identity() {
    let mut c = named(
        "EnterpriseQualityCoding/FizzBuzzEnterpriseEdition",
        "FizzBuzz Enterprise Edition",
    );
    c.signals.push(Signal {
        kind: "issue".into(),
        detail: "issue titled about rewriting in Rust: Rewrite it in Rust".into(),
        url: "https://github.com/EnterpriseQualityCoding/FizzBuzzEnterpriseEdition/issues/1"
            .into(),
    });
    assert!(!has_identity_continuity(&c));
    let a = analysis(0.0, Some("Java"), false);
    assert_ne!(classify(&c, &a, &no_history()), ProjectKind::Rewrite);
}

#[test]
fn subsystem_port_pr_without_product_name_is_not_rewrite() {
    let mut c = named("some-org/vogon-runtime", "A runtime");
    c.signals.push(Signal {
        kind: "pull-request".into(),
        detail: "PR titled about porting to Rust: Migrate lint check to Rust".into(),
        url: "https://github.com/some-org/vogon-runtime/pull/1".into(),
    });
    assert!(!has_identity_continuity(&c));
    let a = analysis(80.0, Some("C++"), true);
    assert_ne!(classify(&c, &a, &no_history()), ProjectKind::Rewrite);
}

#[test]
fn identity_detects_script_kit_and_rejects_wakatime_clone() {
    assert!(has_identity_continuity(&named(
        "johnlindquist/script-kit-next",
        "Script Kit rewritten in Rust"
    )));
    assert!(!has_identity_continuity(&named(
        "mzhang28/wat",
        "drop-in replacement for wakatime"
    )));
}

#[test]
fn kinds_have_their_words() {
    assert_eq!(ProjectKind::Rewrite.as_str(), "rewrite");
    assert_eq!(ProjectKind::Replacement.as_str(), "replacement");
    assert_eq!(ProjectKind::Neither.as_str(), "neither");
}

#[test]
fn origins_lose_articles_and_end_at_stops() {
    assert_eq!(
        extract_named_origin("a clone of the classic unix du tool kit suite").as_deref(),
        Some("classic unix du tool kit")
    );
    assert_eq!(extract_named_origin("fork of `exa` (unmaintained)").as_deref(), Some("exa"));
    assert_eq!(extract_named_origin("successor to: - \"Foo Bar\"").as_deref(), Some("Foo Bar"));
    assert_eq!(extract_named_origin("port of . and rewrite of make").as_deref(), Some("make"));
    assert_eq!(extract_named_origin("a text editor"), None);
    assert_eq!(extract_named_origin("port of"), None);
}

#[test]
fn strong_signals_come_from_description_or_search_and_pull_requests() {
    assert!(has_strong_rewrite_signal(&candidate("A faster alternative to make", vec![])));
    assert!(!has_strong_rewrite_signal(&candidate("A build tool", vec![])));
    let mut c = candidate("A build tool", vec![repo_signal("rewrite of make")]);
    assert!(has_strong_rewrite_signal(&c));
    c.signals[0].kind = "issue".into();
    assert!(!has_strong_rewrite_signal(&c));
    c.signals[0].kind = "pull-request".into();
    assert!(has_strong_rewrite_signal(&c));
    // The lower-case form is what counts.
    assert!(has_strong_rewrite_signal(&candidate("PORTED FOO TO RUST: Port Foo To Rust", vec![])));
    assert!(!has_strong_rewrite_signal(&candidate("rewrite in in rust", vec![])));
}

#[test]
fn search_labels_count_only_for_a_tool() {
    let editor = "A post-modern modal text editor.";
    for bare in [
        "repo mentions \"rewrite in Rust\"",
        "repo mentions \"rewritten in Rust\"",
        "repo mentions \"migrated to Rust\"",
        "REPO MENTIONS \"MIGRATING TO RUST\"",
        "repo describes a port to Rust",
    ] {
        assert!(!has_strong_rewrite_signal(&candidate(editor, vec![repo_signal(bare)])));
    }
    for named in [
        "repo describes a rewrite of a named project",
        "repo mentions a \"Rust port of\" a named project",
        "repo positions itself as a drop-in replacement",
        "rewritten in Rust",
    ] {
        assert!(has_strong_rewrite_signal(&candidate(editor, vec![repo_signal(named)])));
    }
    // What the description says counts, whatever the label.
    let c = candidate("The editor, rewritten in Rust", vec![repo_signal("repo mentions x")]);
    assert!(has_strong_rewrite_signal(&c));
}

#[test]
fn identity_does_not_depend_on_case() {
    for title in ["PR titled about rewriting in Rust: Rewrite Widget in Rust", "nothing: here"] {
        let mut c = candidate(
            "Widget Rewritten In Rust",
            vec![Signal { kind: "pull-request".into(), detail: title.into(), url: "u".into() }],
        );
        c.full_name = "Acme/Widget-RS".into();
        let mut low = candidate(
            "widget rewritten in rust",
            vec![Signal {
                kind: "pull-request".into(),
                detail: title.to_ascii_lowercase(),
                url: "u".into(),
            }],
        );
        low.full_name = "acme/widget-rs".into();
        assert_eq!(has_identity_continuity(&c), has_identity_continuity(&low));
        c.full_name = "Acme/Gadget".into();
        low.full_name = "acme/gadget".into();
        assert_eq!(has_identity_continuity(&c), has_identity_continuity(&low));
    }
}

#[test]
fn titles_stand_behind_the_label() {
    assert_eq!(signal_title_body("PR about Rust: Port it: now"), "Port it: now");
    assert_eq!(signal_title_body("PR about Rust: "), "PR about Rust: ");
    assert_eq!(signal_title_body("no label"), "no label");
}

#[test]
fn api_shims_are_neither_even_with_identity_and_history() {
    let c = named("acme/widget", "widget rewritten in Rust, a drop-in for std::collections");
    assert!(has_identity_continuity(&c));
    assert_eq!(
        classify(&c, &analysis(80.0, Some("C"), true), &rising_rust_history("C")),
        ProjectKind::Neither
    );
}

#[test]
fn a_history_away_from_a_noise_language_is_no_proof() {
    let c = named("acme/widget", "widget rewritten in Rust");
    assert!(has_identity_continuity(&c));
    assert_eq!(
        classify(&c, &analysis(80.0, None, true), &rising_rust_history("Makefile")),
        ProjectKind::Replacement
    );
}

#[test]
fn signals_can_name_the_origin() {
    let c = candidate("A tool", vec![repo_signal("repo mentions a port of x"), repo_signal("Clone of Htop.")]);
    assert_eq!(named_origin(&c).as_deref(), Some("htop"));
}
