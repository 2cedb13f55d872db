use rerust::detect::classify::{classify, has_strong_rewrite_signal, ProjectKind};
use rerust::detect::commits::{self, LanguageAnalysis};
use rerust::detect::enrich::CommitEnrichment;
use rerust::detect::heuristics::REPO_QUERIES;
use rerust::detect::score::{
    candidate_url, pr_relevance, primary_source, sanitize_original_language, score,
    select_rewrite_pr, signal_title, signal_weight, DEFAULT_MIN_CONFIDENCE, HISTORY_CAP, LANG_CAP,
    NO_DISPLACED_CAP, REPLACEMENT_REWRITE_CAP, REWRITE_CONFIDENCE_BONUS, TEXT_CAP,
};
use rerust::detect::transitions::HistoryAnalysis;
use rerust::double::Double;
use rerust::types::{Candidate, Project, Signal};

fn double(x: f64) -> Double {
    Double { bits: x.to_bits() }
}

fn number(x: Double) -> f64 {
    f64::from_bits(x.bits)
}

fn round2(x: f64) -> f64 {
    (x * 100.0).round() / 100.0
}

/// The confidence, computed with doubles of the machine.
fn formula(candidate: &Candidate, analysis: &LanguageAnalysis, history: &HistoryAnalysis) -> f64 {
    let weight = |kind: &str| match kind {
        "repo-search" => 0.35,
        "exemplar" => 0.40,
        "pull-request" => 0.20,
        "issue" => 0.10,
        _ => 0.05,
    };
    let text: f64 = candidate.signals.iter().map(|s| weight(&s.kind)).sum::<f64>().min(0.60);
    let displaced = analysis.original_language.is_some();
    let share = number(analysis.rust_percentage) / 100.0;
    let mut language = share * if displaced { 0.4 } else { 0.1 };
    if analysis.rust_is_primary {
        language += if displaced { 0.15 } else { 0.05 };
    }
    let language = language.min(0.50);
    let mut past = 0.0f64;
    if history.strong_transition {
        past += 0.20;
        if let Some(m) = history.transition_magnitude {
            past += (number(m) / 100.0 * 0.25).min(0.15);
        }
        if history.from_language.is_some() {
            past += 0.05;
        }
    }
    let past = past.min(0.35);
    let mut confidence = (text + language + past).clamp(0.0, 1.0);
    let kind = classify(candidate, analysis, history);
    if kind == ProjectKind::Rewrite {
        confidence = (confidence + 0.05).min(1.0);
    }
    if !displaced {
        let cap = if has_strong_rewrite_signal(candidate) { 0.55 } else { 0.12 };
        confidence = confidence.min(cap);
    }
    if kind == ProjectKind::Neither {
        confidence = 0.0;
    }
    round2(confidence)
}

fn scored(candidate: &Candidate, analysis: &LanguageAnalysis, history: &HistoryAnalysis) -> Project {
    let project =
        score(candidate, analysis, &CommitEnrichment::default(), history, "2026-01-01T00:00:00Z");
    assert_eq!(number(project.confidence), formula(candidate, analysis, history));
    assert_eq!(number(project.rust_percentage), round2(number(analysis.rust_percentage)));
    project
}

fn signal(kind: &str, detail: &str, url: &str) -> Signal {
    Signal { kind: kind.into(), detail: detail.into(), url: url.into() }
}

fn helix_like_candidate() -> Candidate {
    Candidate {
        full_name: "helix-editor/helix".into(),
        html_url: "https://github.com/helix-editor/helix".into(),
        description: Some("A post-modern modal text editor.".into()),
        languages: vec![("Rust".into(), 980_000), ("Nix".into(), 20_000)],
        signals: vec![Signal {
            kind: "repo-search".into(),
            detail: "repo mentions \"rewrite in Rust\"".into(),
            url: "https://github.com/helix-editor/helix".into(),
        }],
        ..Default::default()
    }
}

#[test]
fn helix_like_filtered_below_default_min_confidence() {
    let candidate = helix_like_candidate();
    let analysis = commits::analyze(&candidate);
    assert!(analysis.original_language.is_none());

    let project = scored(&candidate, &analysis, &HistoryAnalysis::default());

    assert!(project.original_language.is_none());
    assert_ne!(project.original_language.as_deref(), Some("Rust"));
    // The guardrail: an all-Rust editor with no displaced language and only a
    // bare "rewrite in Rust" discovery hit stays below the min-confidence
    // filter, so it never surfaces as a bogus rewrite regardless of label.
    let minimum = f64::from_bits(DEFAULT_MIN_CONFIDENCE);
    assert!(
        number(project.confidence) < minimum,
        "expected confidence below {}, got {}",
        minimum,
        number(project.confidence)
    );
}

#[test]
fn coreutils_like_rewrite_scores_high() {
    let candidate = Candidate {
        full_name: "uutils/coreutils".into(),
        description: Some("Cross-platform Rust rewrite of the GNU coreutils".into()),
        languages: vec![("Rust".into(), 600_000), ("C".into(), 400_000)],
        signals: vec![Signal {
            kind: "repo-search".into(),
            detail: "repo describes a port to Rust".into(),
            url: "https://github.com/uutils/coreutils".into(),
        }],
        ..Default::default()
    };
    let analysis = commits::analyze(&candidate);
    assert_eq!(analysis.original_language.as_deref(), Some("C"));

    let project = scored(&candidate, &analysis, &HistoryAnalysis::default());

    // Without commit history, README + displaced-language snapshot is not
    // enough for Rewrite under the commit-analysis gate.
    assert_eq!(project.project_kind, "replacement");
    assert_eq!(project.original_language.as_deref(), Some("C"));
    assert!(number(project.confidence) >= f64::from_bits(DEFAULT_MIN_CONFIDENCE));
}

#[test]
fn ripgrep_style_replacement_without_displaced_language_can_score_high() {
    let candidate = Candidate {
        description: Some(
            "recursively searches directories for a regex pattern, a faster alternative to grep"
                .into(),
        ),
        languages: vec![("Rust".into(), 980_000), ("C".into(), 20_000)],
        signals: vec![Signal {
            kind: "repo-search".into(),
            detail: "repo is a drop-in replacement written in Rust".into(),
            url: "https://example".into(),
        }],
        ..Default::default()
    };
    let analysis = commits::analyze(&candidate);
    assert!(analysis.original_language.is_none());

    let project = scored(&candidate, &analysis, &HistoryAnalysis::default());

    assert_eq!(project.project_kind, "replacement");
    assert!(number(project.confidence) >= f64::from_bits(DEFAULT_MIN_CONFIDENCE));
}

#[test]
fn sanitize_never_allows_rust_as_original_language() {
    assert_eq!(sanitize_original_language(Some("Rust".into())), None);
    assert_eq!(sanitize_original_language(Some("rust".into())), None);
    assert_eq!(sanitize_original_language(Some("C".into())).as_deref(), Some("C"));
}

#[test]
fn noise_is_sanitized_too() {
    assert_eq!(sanitize_original_language(Some("makefile".into())), None);
    assert_eq!(sanitize_original_language(None), None);
}

#[test]
fn thresholds_are_the_decimal_ones() {
    assert_eq!(f64::from_bits(DEFAULT_MIN_CONFIDENCE), 0.15);
    assert_eq!(f64::from_bits(NO_DISPLACED_CAP), 0.12);
    assert_eq!(f64::from_bits(REPLACEMENT_REWRITE_CAP), 0.55);
    assert_eq!(f64::from_bits(REWRITE_CONFIDENCE_BONUS), 0.05);
    assert_eq!(f64::from_bits(TEXT_CAP), 0.60);
    assert_eq!(f64::from_bits(LANG_CAP), 0.50);
    assert_eq!(f64::from_bits(HISTORY_CAP), 0.35);
}

#[test]
fn signals_weigh_by_kind() {
    let weights: Vec<f64> = ["repo-search", "exemplar", "pull-request", "issue", "other"]
        .iter()
        .map(|k| number(signal_weight(k)))
        .collect();
    assert_eq!(weights, vec![0.35, 0.40, 0.20, 0.10, 0.05]);
}

#[test]
fn coreutils_like_confidence_is_exact() {
    let candidate = Candidate {
        full_name: "uutils/coreutils".into(),
        description: Some("Cross-platform Rust rewrite of the GNU coreutils".into()),
        languages: vec![("Rust".into(), 600_000), ("C".into(), 400_000)],
        signals: vec![signal("repo-search", "repo describes a port to Rust", "u")],
        ..Default::default()
    };
    let analysis = commits::analyze(&candidate);
    // 0.35 text, 0.6 * 0.4 + 0.15 language.
    let project = scored(&candidate, &analysis, &HistoryAnalysis::default());
    assert_eq!(number(project.confidence), 0.74);
    assert_eq!(number(project.rust_percentage), 60.0);
    assert_eq!(project.repo_url, "https://github.com/uutils/coreutils");
    assert_eq!(project.name, "coreutils");
    assert_eq!(project.named_origin.as_deref(), Some("gnu coreutils"));
    assert_eq!(project.source_url, "u");
    assert_eq!(project.first_detected, "2026-01-01T00:00:00Z");
    assert!(project.total_commits_analyzed.is_none());

    let history = HistoryAnalysis {
        strong_transition: true,
        from_language: Some("C".into()),
        transition_magnitude: Some(double(40.0)),
        rust_pct_before: Some(double(5.0)),
        rust_pct_after: Some(double(45.0)),
        total_commits: 9,
        ..Default::default()
    };
    let rewrite = scored(&candidate, &analysis, &history);
    assert_eq!(rewrite.project_kind, "rewrite");
    assert_eq!(number(rewrite.confidence), 1.0);
    assert_eq!(rewrite.history_from_language.as_deref(), Some("C"));
    assert_eq!(rewrite.total_commits_analyzed, Some(9));
    let weak = HistoryAnalysis { transition_magnitude: None, from_language: None, ..history };
    assert_eq!(number(scored(&candidate, &analysis, &weak).confidence), 0.94);
}

#[test]
fn unrelated_projects_get_no_confidence() {
    let candidate = helix_like_candidate();
    let analysis = LanguageAnalysis {
        rust_percentage: double(50.0),
        original_language: Some("Go".into()),
        rust_is_primary: true,
    };
    // The text alone frames no migration once the phrase is gone.
    let mut bare = candidate.clone();
    bare.signals.clear();
    assert_eq!(classify(&bare, &analysis, &HistoryAnalysis::default()), ProjectKind::Neither);
    assert_eq!(number(scored(&bare, &analysis, &HistoryAnalysis::default()).confidence), 0.0);
}

#[test]
fn caps_hold_without_a_displaced_language() {
    let mut candidate = helix_like_candidate();
    candidate.description = Some("helix rewritten in Rust".into());
    candidate.signals.push(signal("exemplar", "x", "u"));
    let analysis = commits::analyze(&candidate);
    let project = scored(&candidate, &analysis, &HistoryAnalysis::default());
    assert_eq!(project.project_kind, "replacement");
    assert_eq!(number(project.confidence), 0.55);
}

#[test]
fn labels_of_the_readme_search_stay_below_the_threshold() {
    let labels: Vec<&str> =
        REPO_QUERIES.iter().map(|q| q.1).filter(|l| l.starts_with("README")).collect();
    assert_eq!(labels.len(), 4);
    for label in labels {
        let mut candidate = helix_like_candidate();
        candidate.signals = vec![signal("repo-search", label, "u"); 3];
        assert!(!has_strong_rewrite_signal(&candidate), "{label}");
        let analysis = commits::analyze(&candidate);
        let project = scored(&candidate, &analysis, &HistoryAnalysis::default());
        assert!(number(project.confidence) <= 0.12, "{label}");
    }
}

#[test]
fn confidence_stays_between_zero_and_one() {
    let kinds = ["repo-search", "exemplar", "pull-request", "issue", "other"];
    let mut candidate = helix_like_candidate();
    candidate.description = Some("helix rewritten in Rust".into());
    for n in 0..12usize {
        candidate.signals =
            (0..n).map(|i| signal(kinds[(i * 3 + n) % kinds.len()], "d", "u")).collect();
        for percent in [0.0, 3.3, 12.5, 49.99, 50.0, 66.666, 97.1, 100.0, -4.0, 250.0] {
            for language in [None, Some("Go".to_string())] {
                for strong in [false, true] {
                    let analysis = LanguageAnalysis {
                        rust_percentage: double(percent),
                        original_language: language.clone(),
                        rust_is_primary: percent >= 50.0,
                    };
                    let history = HistoryAnalysis {
                        strong_transition: strong,
                        from_language: language.clone(),
                        transition_magnitude: Some(double(percent * 0.73)),
                        ..Default::default()
                    };
                    let project = scored(&candidate, &analysis, &history);
                    let confidence = number(project.confidence);
                    assert!((0.0..=1.0).contains(&confidence));
                }
            }
        }
    }
}

#[test]
fn links_default_to_the_name() {
    let mut candidate = helix_like_candidate();
    assert_eq!(candidate_url(&candidate), "https://github.com/helix-editor/helix");
    candidate.html_url.clear();
    candidate.full_name = "a/b".into();
    assert_eq!(candidate_url(&candidate), "https://github.com/a/b");
}

#[test]
fn the_first_best_pull_request_represents_the_rewrite() {
    let mut c = Candidate::default();
    assert!(select_rewrite_pr(&c).is_none());
    c.signals = vec![
        signal("issue", "issue: Rewrite and port to Rust", "i"),
        signal("pull-request", "PR: Tidy up", "a"),
        signal("pull-request", "PR: Port to Rust", "b"),
        signal("pull-request", "PR: Rewrite", "c"),
        signal("pull-request", "PR: ", "d"),
    ];
    let pr = select_rewrite_pr(&c).unwrap();
    assert_eq!((pr.title.as_str(), pr.url.as_str()), ("Port to Rust", "b"));
    assert_eq!(pr_relevance("Rewrite and PORT to rust"), 6);
    assert_eq!(pr_relevance("import"), 2);
    assert_eq!(pr_relevance("tidy"), 0);
    assert_eq!(signal_title("PR: Port"), "Port");
}

#[test]
fn sources_prefer_the_search_hit() {
    let mut c = Candidate::default();
    assert_eq!(primary_source(&c), None);
    c.signals = vec![signal("exemplar", "x", "e"), signal("issue", "x", "i")];
    assert_eq!(primary_source(&c).as_deref(), Some("i"));
    c.signals.push(signal("pull-request", "x", "p"));
    assert_eq!(primary_source(&c).as_deref(), Some("p"));
    c.signals.push(signal("repo-search", "x", "r"));
    assert_eq!(primary_source(&c).as_deref(), Some("r"));
    c.signals.truncate(1);
    assert_eq!(primary_source(&c).as_deref(), Some("e"));
}
