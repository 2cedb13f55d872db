use rerust::detect::commits::LanguageAnalysis;
use rerust::detect::enrich::CommitEnrichment;
use rerust::detect::score::candidate_url;
use rerust::detect::transitions::HistoryAnalysis;
use rerust::double::Double;
use rerust::origins::parse_origins;
use rerust::pipeline::{
    analysis_from_project, attempts_after_failure, backfill_enrichment, backfill_order,
    backfill_pending, backfill_result, backfill_step, backfilled, candidate_from_project,
    enrichment_from_project, exemplar_candidate, fate_of, history_done, history_enrichment,
    history_from_project, is_kept, measures_unsafe, merge_project, normalize_repo_url, parse_shard,
    prefer_enriched, reclassified, reclassify_project, rescore, shard_owns, skip_exemplar, with_first_detected,
    with_history_ok, BackfillOptions, BackfillResult, BackfillStep, Fate, ShardError,
};
use rerust::site::{embed_json, render_page, site_projects, SiteError};
use rerust::store::{
    is_duplicate_column, new_row, restore_rewrite_prs, stored_rewrite_prs, upsert, upserted, with_attempt,
};
use rerust::types::{default_project_kind, Candidate, Project, RewritePr, Signal};

fn double(x: f64) -> Double {
    Double { bits: x.to_bits() }
}

fn project(url: &str) -> Project {
    Project {
        name: "n".into(),
        repo_url: url.into(),
        description: None,
        stars: 1,
        forks: 2,
        open_issues: 3,
        open_prs: 4,
        original_language: Some("C".into()),
        rust_percentage: double(60.0),
        confidence: double(0.5),
        signals: vec![],
        rewrite_prs: vec![],
        rewrite_pr: None,
        unsafe_percentage: None,
        project_kind: "replacement".into(),
        named_origin: None,
        lines_added: None,
        lines_removed: None,
        rewrite_velocity: None,
        ai_assist_score: None,
        ai_agents: vec![],
        rewrite_duration_days: None,
        commit_count: None,
        history_from_language: None,
        history_rust_before: None,
        history_rust_after: None,
        transition_magnitude: None,
        total_commits_analyzed: None,
        history_status: None,
        history_error: None,
        history_attempted_at: None,
        history_attempts: None,
        source_url: "s".into(),
        first_detected: "first".into(),
        last_seen: "last".into(),
        exemplar: false,
    }
}

fn options() -> BackfillOptions {
    BackfillOptions {
        max_stars: 0,
        timeout_secs: 300,
        macro_timeout_secs: 900,
        max_attempts: 3,
        retry_failed: false,
        batch_size: 25,
        force: false,
        measure_unsafe: false,
    }
}

fn pr(title: &str, url: &str) -> RewritePr {
    RewritePr { title: title.into(), url: url.into() }
}

#[test]
fn stored_projects_become_scorer_inputs() {
    let mut p = project(" https://github.com/Foo/Bar/ ");
    p.history_from_language = Some("C".into());
    p.history_rust_before = Some(double(5.0));
    p.history_rust_after = Some(double(60.0));
    p.transition_magnitude = Some(double(55.0));
    p.total_commits_analyzed = Some(12);
    p.lines_added = Some(7);
    let c = candidate_from_project(&p);
    assert_eq!(c.full_name, "Foo/Bar");
    assert_eq!(c.html_url, " https://github.com/Foo/Bar/ ");
    let a = analysis_from_project(&p);
    assert_eq!(a.rust_percentage, double(60.0));
    assert!(a.rust_is_primary);
    p.rust_percentage = double(49.9);
    assert!(!analysis_from_project(&p).rust_is_primary);
    p.original_language = None;
    assert!(analysis_from_project(&p).rust_is_primary);
    let h = history_from_project(&p);
    assert!(h.strong_transition);
    assert_eq!(h.total_commits, 12);
    assert_eq!(h.enrichment.lines_added, Some(7));
    assert_eq!(enrichment_from_project(&p).lines_added, Some(7));
}

#[test]
fn enrichment_without_metrics_is_blank() {
    let mut h = HistoryAnalysis::default();
    h.enrichment.commit_count = Some(4);
    assert_eq!(history_enrichment(&h).commit_count, None);
    h.enrichment.lines_added = Some(1);
    assert_eq!(history_enrichment(&h).commit_count, Some(4));
    h.enrichment.lines_added = None;
    h.enrichment.ai_agents = vec!["agent".into()];
    assert_eq!(history_enrichment(&h).commit_count, Some(4));
}

#[test]
fn rescoring_keeps_dates_and_drops_the_unrelated() {
    let mut p = project("https://github.com/acme/widget");
    p.description = Some("widget rewritten in Rust".into());
    let h = history_from_project(&p);
    let e = enrichment_from_project(&p);
    let scored = rescore(&p, &e, &h, "now");
    assert_eq!(scored.project_kind, "replacement");
    assert_eq!(scored.name, "widget");
    assert_eq!(scored.first_detected, "now");
    let row = reclassified(&p, &scored);
    assert_eq!((row.first_detected.as_str(), row.last_seen.as_str()), ("first", "last"));
    // 0.6 * 0.4 of the share, and 0.15 for Rust as the largest language.
    assert_eq!(row.confidence, double(0.39));
    p.description = Some("a widget".into());
    let scored = rescore(&p, &e, &h, "now");
    assert_eq!(fate_of(&scored.project_kind), Fate::Dropped);
    assert_eq!(scored.confidence, double(0.0));
    assert_eq!(fate_of("rewrite"), Fate::Rewrite);
    assert_eq!(fate_of("replacement"), Fate::Replacement);
}

#[test]
fn scans_keep_what_reaches_the_threshold() {
    let p = project("u");
    assert!(is_kept(&p, double(0.5)));
    assert!(is_kept(&p, double(0.4)));
    assert!(!is_kept(&p, double(0.51)));
    assert_eq!(with_first_detected(&p, Some("older".into())).first_detected, "older");
    assert_eq!(with_first_detected(&p, None).first_detected, "first");
}

#[test]
fn exemplars_are_scanned_once() {
    let c = exemplar_candidate("foo/bar");
    assert_eq!(c.html_url, "https://github.com/foo/bar");
    assert_eq!(c.signals[0].kind, "exemplar");
    assert_eq!(candidate_url(&c), "https://github.com/foo/bar");
    let bare = Candidate { full_name: "a/b".into(), ..Default::default() };
    assert_eq!(candidate_url(&bare), "https://github.com/a/b");
    let ok = with_history_ok(&project("u"), "now");
    assert_eq!(ok.history_status.as_deref(), Some("ok"));
    assert_eq!(ok.history_attempts, Some(0));
    assert!(skip_exemplar(Some(&ok), false));
    assert!(!skip_exemplar(Some(&ok), true));
    assert!(!skip_exemplar(Some(&project("u")), false));
    assert!(!skip_exemplar(None, false));
}

#[test]
fn measurements_are_made_where_they_tell() {
    let rust = LanguageAnalysis { rust_is_primary: true, ..Default::default() };
    assert!(measures_unsafe(true, &rust));
    assert!(!measures_unsafe(false, &rust));
    assert!(!measures_unsafe(true, &LanguageAnalysis::default()));
    let history = HistoryAnalysis { total_commits: 1, ..Default::default() };
    assert!(history_done(true, &history));
    assert!(!history_done(false, &history));
    assert!(!history_done(true, &HistoryAnalysis::default()));
}

#[test]
fn links_are_normalized() {
    assert_eq!(normalize_repo_url("https://x/y//"), "https://x/y");
    assert_eq!(normalize_repo_url("http://x/y"), "http://x/y");
    assert_eq!(normalize_repo_url("/foo/bar/"), "https://github.com/foo/bar");
}

#[test]
fn backfill_steps_follow_the_row() {
    let none: Vec<String> = vec![];
    let exemplars = vec!["a/b".to_string()];
    let mut p = project("https://github.com/a/b");
    let plain = options();
    assert_eq!(
        backfill_step(&p, &plain, &none, 0),
        BackfillStep::Analyze { macro_mode: false, timeout_secs: 300, measure_unsafe: false }
    );
    let measuring = BackfillOptions { measure_unsafe: true, ..plain };
    assert_eq!(
        backfill_step(&p, &measuring, &exemplars, 24),
        BackfillStep::Analyze { macro_mode: true, timeout_secs: 900, measure_unsafe: true }
    );
    assert_eq!(backfill_step(&p, &plain, &none, 25), BackfillStep::Stop);
    let capped = BackfillOptions { max_stars: 1, ..plain };
    assert_eq!(backfill_step(&p, &capped, &none, 0), BackfillStep::SkipStars);

    p.history_status = Some("failed".into());
    p.history_attempts = Some(2);
    assert!(backfill_pending(&p, &plain, &none));
    p.history_attempts = Some(3);
    assert_eq!(backfill_step(&p, &plain, &none, 0), BackfillStep::SkipDead);
    let retrying = BackfillOptions { retry_failed: true, ..plain };
    assert!(backfill_pending(&p, &retrying, &none));
    assert_eq!(attempts_after_failure(&p), 4);
    p.history_attempts = Some(u32::MAX);
    assert_eq!(attempts_after_failure(&p), u32::MAX);

    p.history_status = Some("ok".into());
    assert_eq!(backfill_step(&p, &plain, &none, 0), BackfillStep::SkipDone);
    assert_eq!(backfill_step(&p, &measuring, &none, 0), BackfillStep::MeasureUnsafe);
    assert_eq!(backfill_step(&p, &measuring, &exemplars, 0), BackfillStep::SkipDone);
    p.unsafe_percentage = Some(double(1.0));
    assert_eq!(backfill_step(&p, &measuring, &none, 0), BackfillStep::SkipDone);
    let forced = BackfillOptions { force: true, ..plain };
    assert_eq!(
        backfill_step(&p, &forced, &none, 0),
        BackfillStep::Analyze { macro_mode: false, timeout_secs: 300, measure_unsafe: false }
    );
}

#[test]
fn backfilled_rows_are_marked() {
    let mut p = project("u");
    p.lines_added = Some(3);
    let mut h = HistoryAnalysis::default();
    assert_eq!(backfill_enrichment(&p, &h).lines_added, Some(3));
    h.enrichment = CommitEnrichment { lines_added: Some(8), ..Default::default() };
    assert_eq!(backfill_enrichment(&p, &h).lines_added, Some(8));
    let mut scored = project("u");
    scored.first_detected = "now".into();
    scored.history_error = Some("old".into());
    let row = backfilled(&p, &scored, "now");
    assert_eq!((row.first_detected.as_str(), row.last_seen.as_str()), ("first", "last"));
    assert_eq!(row.history_status.as_deref(), Some("ok"));
    assert_eq!(row.history_error, None);
    assert_eq!(row.history_attempted_at.as_deref(), Some("now"));
}

#[test]
fn backfill_takes_exemplars_first() {
    let mut a = project("https://github.com/a/a");
    a.stars = 100;
    let mut b = project("https://github.com/b/b");
    b.stars = 100;
    let c = project("https://github.com/c/c");
    a.confidence = double(0.5);
    b.confidence = double(0.6);
    let order = backfill_order(&vec![a, b, c], &vec!["c/c".to_string()]);
    assert_eq!(order, vec![2, 1, 0]);
}

#[test]
fn shards_are_read_or_refused() {
    assert_eq!(parse_shard(None), Ok(None));
    assert_eq!(parse_shard(Some("3/8")), Ok(Some((3, 8))));
    assert_eq!(parse_shard(Some("3")), Err(ShardError::Syntax));
    assert_eq!(parse_shard(Some("x/8")), Err(ShardError::Index));
    assert_eq!(parse_shard(Some("x/y")), Err(ShardError::Index));
    assert_eq!(parse_shard(Some("3/8/9")), Err(ShardError::Total));
    assert_eq!(parse_shard(Some("3/4294967296")), Err(ShardError::Total));
    assert_eq!(parse_shard(Some("0/0")), Err(ShardError::NoShards));
    assert_eq!(parse_shard(Some("8/8")), Err(ShardError::OutOfRange));
}

#[test]
fn every_repository_has_one_shard() {
    for url in ["", "https://github.com/oven-sh/bun", "https://github.com/é/ü"] {
        let owners = (0..8).filter(|i| shard_owns(url, *i, 8)).count();
        assert_eq!(owners, 1);
    }
    // FNV-1a of nothing and of one byte.
    assert!(shard_owns("", (0xcbf29ce484222325u64 % 1000) as u32, 1000));
    assert!(shard_owns("a", (0xaf63dc4c8601ec8cu64 % 1000) as u32, 1000));
}

#[test]
fn merging_prefers_the_row_that_got_further() {
    let ok = |date: &str| with_attempt(&project("u"), "ok", None, date, 0);
    let failed = with_attempt(&project("u"), "failed", Some("why"), "2030", 2);
    assert_eq!(failed.history_error.as_deref(), Some("why"));
    assert_eq!(
        prefer_enriched(&failed, &ok("2020")).history_attempted_at.as_deref(),
        Some("2020")
    );
    assert_eq!(
        prefer_enriched(&ok("2020"), &failed).history_attempted_at.as_deref(),
        Some("2020")
    );
    assert_eq!(
        prefer_enriched(&ok("2020"), &ok("2021")).history_attempted_at.as_deref(),
        Some("2021")
    );
    assert_eq!(
        prefer_enriched(&project("u"), &failed).history_status.as_deref(),
        Some("failed")
    );

    let mut rows = vec![project("a"), failed];
    assert!(merge_project(&mut rows, &ok("2020")));
    assert!(!merge_project(&mut rows, &ok("2019")));
    assert!(!merge_project(&mut rows, &project("b")));
    let urls: Vec<&str> = rows.iter().map(|p| p.repo_url.as_str()).collect();
    assert_eq!(urls, vec!["a", "u", "b"]);
    assert_eq!(rows[1].history_attempted_at.as_deref(), Some("2020"));
}

#[test]
fn writing_again_keeps_the_first_date_and_old_measurements() {
    let mut stored = project("u");
    stored.lines_added = Some(5);
    stored.unsafe_percentage = Some(double(2.0));
    stored.history_status = Some("ok".into());
    stored.ai_agents = vec!["x".into()];
    stored.history_from_language = Some("C".into());
    let mut new = project("u");
    new.first_detected = "today".into();
    new.last_seen = "today".into();
    new.lines_removed = Some(9);
    let row = upserted(Some(&stored), &new);
    assert_eq!((row.first_detected.as_str(), row.last_seen.as_str()), ("first", "today"));
    assert_eq!((row.lines_added, row.lines_removed), (Some(5), Some(9)));
    assert_eq!(row.unsafe_percentage, Some(double(2.0)));
    assert_eq!(row.history_status.as_deref(), Some("ok"));
    assert_eq!(row.ai_agents, vec!["x"]);
    assert_eq!(row.history_from_language, None);
    assert_eq!(upserted(None, &new).first_detected, "today");
    let twice = upserted(Some(&row), &new);
    assert_eq!(format!("{twice:?}"), format!("{row:?}"));
}

#[test]
fn rewrite_pull_requests_survive_the_store() {
    let mut p = project("u");
    p.rewrite_pr = Some(pr("single", "1"));
    assert_eq!(p.effective_rewrite_prs().len(), 1);
    let (list, first) = stored_rewrite_prs(&p);
    assert_eq!(first.unwrap().title, "single");
    let (read, primary) = restore_rewrite_prs(list, Some("single".into()), Some("1".into()));
    assert_eq!(read.len(), 1);
    assert_eq!(primary.unwrap().url, "1");
    p.rewrite_prs = vec![pr("a", "2"), pr("b", "3")];
    let (list, first) = stored_rewrite_prs(&p);
    assert_eq!(list.len(), 2);
    assert_eq!(first.unwrap().title, "a");
    let (read, primary) = restore_rewrite_prs(vec![], Some("old".into()), Some("4".into()));
    assert_eq!(read.len(), 1);
    assert_eq!(primary.unwrap().title, "old");
    let (read, primary) = restore_rewrite_prs(vec![], Some("old".into()), None);
    assert!(read.is_empty() && primary.is_none());
    assert!(is_duplicate_column("error: duplicate column name: forks"));
    assert!(!is_duplicate_column("no such table"));
    assert_eq!(default_project_kind(), "replacement");
}

#[test]
fn rows_hold_the_effective_pull_requests() {
    let mut p = project("u");
    p.exemplar = true;
    p.rewrite_pr = Some(pr("single", "1"));
    for row in [new_row(&p), upserted(None, &p), upserted(Some(&project("u")), &p)] {
        assert_eq!(row.rewrite_prs.len(), 1);
        assert_eq!(row.rewrite_prs[0].title, "single");
        assert_eq!(row.rewrite_pr.as_ref().unwrap().url, "1");
        assert!(!row.exemplar);
    }
    p.rewrite_prs = vec![pr("a", "2"), pr("b", "3")];
    let mut stored = project("u");
    stored.rewrite_prs = vec![pr("old", "9")];
    for row in [new_row(&p), upserted(Some(&stored), &p)] {
        assert_eq!(row.rewrite_prs.len(), 2);
        assert_eq!(row.rewrite_pr.as_ref().unwrap().title, "a");
    }
    let bare = upserted(Some(&stored), &project("u"));
    assert!(bare.rewrite_prs.is_empty() && bare.rewrite_pr.is_none());
}

#[test]
fn the_site_shows_exemplars_then_rewrites_then_confidence() {
    let make = |url: &str, kind: &str, confidence: f64, stars: u64| {
        let mut p = project(url);
        p.project_kind = kind.into();
        p.confidence = double(confidence);
        p.stars = stars;
        p.signals = vec![Signal { kind: "k".into(), detail: "d".into(), url: "u".into() }];
        p
    };
    let projects = vec![
        make("https://github.com/a/low", "replacement", 0.2, 900),
        make("https://github.com/a/none", "neither", 0.9, 900),
        make("https://github.com/a/zero", "rewrite", 0.0, 900),
        make("https://github.com/a/few", "rewrite", 0.3, 1),
        make("https://github.com/a/many", "rewrite", 0.3, 2),
        make("https://github.com/a/curated", "replacement", 0.1, 0),
        make("https://github.com/a/nan", "rewrite", f64::NAN, 0),
    ];
    let origins = parse_origins("a/low|make");
    let shown = site_projects(&projects, &vec!["a/curated".to_string()], &origins);
    let urls: Vec<&str> = shown.iter().map(|p| p.repo_url.as_str()).collect();
    assert_eq!(
        urls,
        vec![
            "https://github.com/a/curated",
            "https://github.com/a/many",
            "https://github.com/a/few",
            "https://github.com/a/low"
        ]
    );
    assert!(shown[0].exemplar && !shown[1].exemplar);
    assert_eq!(shown[3].named_origin.as_deref(), Some("make"));
    assert_eq!(shown[0].named_origin, None);
}

#[test]
fn pages_embed_their_data() {
    assert_eq!(embed_json("[\"</script>\"]"), "[\"\\u003c/script>\"]");
    let page = render_page(
        "{{ generated_at }}|{{ project_count }}|{{ data_json }}",
        "today",
        2,
        "[1, \"<b>\"]",
    );
    assert_eq!(page.as_deref(), Ok("today|2|[1, \"\\u003cb>\"]"));
    assert_eq!(render_page("{% if %}", "today", 2, "[]"), Err(SiteError::Template));
}

#[test]
fn an_empty_history_is_a_failed_attempt() {
    let mut p = project("https://github.com/acme/widget");
    p.description = Some("widget rewritten in Rust".into());
    p.history_attempts = Some(1);
    let empty = HistoryAnalysis::default();
    assert!(matches!(
        backfill_result(&p, &empty, "now"),
        BackfillResult::Failed { attempts: 2 }
    ));
    let history = HistoryAnalysis {
        total_commits: 5,
        strong_transition: true,
        from_language: Some("C".into()),
        ..Default::default()
    };
    match backfill_result(&p, &history, "now") {
        BackfillResult::Row(row) => {
            assert_eq!(row.project_kind, "rewrite");
            assert_eq!(row.history_status.as_deref(), Some("ok"));
            assert_eq!(row.history_attempts, Some(0));
            assert_eq!(row.first_detected, "first");
            assert_eq!(row.total_commits_analyzed, Some(5));
        }
        BackfillResult::Failed { .. } => panic!("the history has commits"),
    }
    let (fate, row) = reclassify_project(&p, "now");
    assert_eq!(fate, Fate::Replacement);
    assert_eq!((row.first_detected.as_str(), row.last_seen.as_str()), ("first", "last"));
    p.description = None;
    assert_eq!(reclassify_project(&p, "now").0, Fate::Dropped);
}

#[test]
fn writing_touches_one_row() {
    let mut rows = vec![project("u/a"), project("u/b")];
    rows[0].lines_added = Some(7);
    let mut again = project("u/a");
    again.first_detected = "today".into();
    again.stars = 99;
    upsert(&mut rows, &again);
    assert_eq!(rows.len(), 2);
    assert_eq!((rows[0].stars, rows[0].lines_added), (99, Some(7)));
    assert_eq!(rows[0].first_detected, "first");
    assert_eq!((rows[1].repo_url.as_str(), rows[1].stars), ("u/b", 1));
    upsert(&mut rows, &project("u/c"));
    let urls: Vec<&str> = rows.iter().map(|p| p.repo_url.as_str()).collect();
    assert_eq!(urls, vec!["u/a", "u/b", "u/c"]);
}
