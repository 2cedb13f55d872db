use std::collections::BTreeMap;

use rerust::detect::enrich::{
    burst_score, compute_ai_assist_score, duration_days, enrichment_from_window, window_totals,
    FIRST_SECOND, LAST_SECOND,
};
use rerust::detect::git_history::{CommitRecord, FileChange};
use rerust::detect::transitions::{
    analyze_commits_with_sample_points, average_of, dominant_non_rust, net_total, rust_lines,
    rust_share, sample_composition, segment_len, segment_shares, segments, share_points,
    strong_transition_from_stored, transition_churn, transition_verdict,
    transition_window_commits, CompositionSample, HistoryAnalysis, HistoryOptions, LanguageShare,
    SegmentShares, SharePoint, MAX_NANOS,
};
use rerust::double::Double;

fn double(x: f64) -> Double {
    Double { bits: x.to_bits() }
}

fn number(x: Double) -> f64 {
    f64::from_bits(x.bits)
}

fn round1(x: f64) -> f64 {
    (x * 10.0).round() / 10.0
}

fn round2(x: f64) -> f64 {
    (x * 100.0).round() / 100.0
}

/// The average shares of some samples, computed with doubles of the machine.
fn average(samples: &[CompositionSample]) -> BTreeMap<String, f64> {
    let mut sums: BTreeMap<String, f64> = BTreeMap::new();
    for s in samples {
        let total = net_total(&s.net) as f64;
        if total <= 0.0 {
            continue;
        }
        for e in &s.net.entries {
            if e.lines > 0 {
                *sums.entry(e.language.clone()).or_insert(0.0) += (e.lines as f64 / total) * 100.0;
            }
        }
    }
    let n = samples.len() as f64;
    sums.into_iter().map(|(k, v)| (k, v / n)).collect()
}

/// Analyze a history, and hold its numbers to those of the machine.
fn analyze_commits(commits: &[CommitRecord]) -> HistoryAnalysis {
    let history = analyze_commits_with_sample_points(commits, 400).unwrap();
    let samples = sample_composition(commits, 400).unwrap();
    let segment = segment_len(samples.len());
    let early = average(&samples[..segment]);
    let late = average(&samples[samples.len() - segment..]);
    let before = early.get("Rust").copied().unwrap_or(0.0);
    let after = late.get("Rust").copied().unwrap_or(0.0);
    let shares = segment_shares(&samples);
    assert_eq!(number(shares.rust_before), before);
    assert_eq!(number(shares.rust_after), after);
    assert_eq!(number(shares.rise), after - before);
    assert_eq!(number(shares.rise_floor), before + 5.0);
    for (language, share) in &early {
        let ((from, to), _) = segments(samples.len());
        assert_eq!(number(average_of(&samples, from, to, language)), *share);
        let listed = shares.early.iter().find(|e| &e.language == language).unwrap();
        assert_eq!(number(listed.share), *share);
    }
    assert_eq!(history.rust_pct_before.map(number), Some(round1(before)));
    assert_eq!(history.rust_pct_after.map(number), Some(round1(after)));
    if let Some(magnitude) = history.transition_magnitude {
        assert_eq!(number(magnitude), round1(after - before));
    }
    if let (Some(added), Some(removed)) = (history.enrichment.lines_added, history.enrichment.lines_removed) {
        let days = f64::from(history.enrichment.rewrite_duration_days.unwrap());
        let velocity = round2((added + removed) as f64 / days);
        assert_eq!(history.enrichment.rewrite_velocity.map(number), Some(velocity));
    }
    history
}

fn commit(ts: i64, files: Vec<(&str, u64, u64)>) -> CommitRecord {
    CommitRecord {
        timestamp: ts,
        subject: "work".into(),
        coauthors: vec![],
        files: files
            .into_iter()
            .map(|(p, a, r)| FileChange {
                path: p.into(),
                added: a,
                removed: r,
            })
            .collect(),
    }
}

fn titled(subject: &str, added: u64, ts: i64) -> CommitRecord {
    CommitRecord {
        timestamp: ts,
        subject: subject.into(),
        coauthors: vec![],
        files: vec![FileChange {
            path: "x.rs".into(),
            added,
            removed: 0,
        }],
    }
}

#[test]
fn born_in_rust_port_shows_no_transition() {
    // Simulates RuAnnoy/pounce: always mostly Rust, no rising migration.
    let commits = vec![
        commit(1_000, vec![("lib.rs", 5000, 0), ("bind.cs", 1000, 0)]),
        commit(2_000, vec![("lib.rs", 2000, 0), ("bind.cs", 500, 0)]),
        commit(3_000, vec![("lib.rs", 1500, 0)]),
    ];
    let h = analyze_commits(&commits);
    assert!(!h.strong_transition);
    assert!(h.from_language.is_none());
    assert!(h.transition_magnitude.is_none());
}

#[test]
fn detects_python_to_rust_transition() {
    let commits = vec![
        commit(1_000, vec![("main.py", 5000, 0), ("util.py", 3000, 0)]),
        commit(2_000, vec![("main.py", 0, 2000), ("main.rs", 2500, 0)]),
        commit(3_000, vec![("main.py", 0, 3000), ("main.rs", 3000, 0)]),
        commit(4_000, vec![("util.py", 0, 3000), ("util.rs", 2800, 0)]),
        commit(5_000, vec![("main.rs", 500, 0), ("lib.rs", 2000, 0)]),
    ];
    let h = analyze_commits(&commits);
    assert!(number(h.rust_pct_after.unwrap()) > number(h.rust_pct_before.unwrap()));
    assert!(number(h.transition_magnitude.unwrap()) >= 20.0);
    assert_eq!(h.from_language.as_deref(), Some("Python"));
    assert!(h.strong_transition);
    assert!(h.enrichment.lines_added.unwrap() > 0);
}

#[test]
fn all_rust_from_start_has_no_transition() {
    let commits = vec![
        commit(1_000, vec![("a.rs", 1000, 0)]),
        commit(2_000, vec![("b.rs", 500, 0)]),
    ];
    let h = analyze_commits(&commits);
    assert!(!h.strong_transition);
    assert!(h.from_language.is_none());
}

#[test]
fn c_to_rust_coreutils_style() {
    let commits = vec![
        commit(1_000, vec![("cp.c", 4000, 0), ("mv.c", 3500, 0)]),
        commit(2_000, vec![("cp.c", 0, 500), ("cp.rs", 600, 0)]),
        commit(3_000, vec![("mv.c", 0, 400), ("mv.rs", 550, 0)]),
        commit(4_000, vec![("cp.rs", 800, 0), ("mv.rs", 700, 0)]),
        commit(5_000, vec![("cp.c", 0, 3500), ("mv.c", 0, 3100)]),
        commit(6_000, vec![("lib.rs", 5000, 0)]),
    ];
    let h = analyze_commits(&commits);
    assert_eq!(h.from_language.as_deref(), Some("C"));
    assert!(number(h.rust_pct_after.unwrap()) > 60.0);
}

#[test]
fn high_loc_and_templated_messages_raise_ai_score() {
    let c1 = titled("refactor: translate module foo", 3000, 1_700_000_000);
    let c2 = titled("refactor: port module bar", 2500, 1_700_086_400);
    let refs = vec![&c1, &c2];
    let score = number(compute_ai_assist_score(&refs, 5500, 5200));
    assert!(score >= 0.5, "expected high score, got {score}");
}

#[test]
fn small_manual_commits_score_low() {
    let c1 = titled("fix typo", 3, 1_700_000_000);
    let c2 = titled("update readme", 10, 1_700_100_000);
    let refs = vec![&c1, &c2];
    let score = number(compute_ai_assist_score(&refs, 13, 6));
    assert!(score < 0.3, "expected low score, got {score}");
}

#[test]
fn counts_never_go_below_zero() {
    let commits = vec![
        commit(1, vec![("a.py", 10, 0)]),
        commit(2, vec![("a.py", 0, 25), ("b.rs", 7, 0), ("notes.md", 90, 0)]),
        commit(3, vec![("a.py", 4, 0), ("b.rs", 3, 3)]),
    ];
    let samples = sample_composition(&commits, 400).unwrap();
    assert_eq!(samples.len(), 3);
    assert_eq!(net_total(&samples[0].net), 10);
    assert_eq!(net_total(&samples[1].net), 7);
    assert_eq!(net_total(&samples[2].net), 11);
    assert_eq!(rust_lines(&samples[0].net), 0);
    assert_eq!(rust_lines(&samples[2].net), 7);
    assert_eq!(samples[2].net.entries.len(), 2);
}

#[test]
fn counts_that_do_not_fit_are_refused() {
    let big = i64::MAX as u64;
    let commits = vec![commit(1, vec![("a.py", big, 0)]), commit(2, vec![("a.py", 1, 0)])];
    assert!(sample_composition(&commits, 400).is_none());
    assert!(sample_composition(&commits[..1], 400).is_some());
    let wrapped = vec![commit(1, vec![("a.py", 1 << 63, 1)])];
    assert!(sample_composition(&wrapped, 400).is_none());
    // A count in the upper half of the range is negative, and clamped.
    let negative = vec![commit(1, vec![("a.py", u64::MAX, 0)])];
    let samples = sample_composition(&negative, 400).unwrap();
    assert_eq!(net_total(&samples[0].net), 0);
}

#[test]
fn large_histories_are_sampled_up_to_the_last_commit() {
    let commits: Vec<CommitRecord> = (0..450).map(|i| commit(i, vec![("a.rs", 1, 0)])).collect();
    let samples = sample_composition(&commits, 0).unwrap();
    assert_eq!(samples[0].idx, 0);
    assert_eq!(samples[1].idx, 5);
    assert_eq!(samples[samples.len() - 1].idx, 449);
    assert_eq!(samples.len(), 91);
    assert_eq!(net_total(&samples[1].net), 6);
}

#[test]
fn samples_never_outnumber_the_maximum() {
    let commits: Vec<CommitRecord> = (0..1300).map(|i| commit(i, vec![("a.rs", 1, 0)])).collect();
    let count = |n: usize, max| sample_composition(&commits[..n], max).unwrap().len();
    assert_eq!(count(400, 400), 400);
    assert_eq!(count(401, 400), 201);
    assert_eq!(count(799, 400), 267);
    assert_eq!(count(798, 400), 400);
    assert_eq!(count(100, 7), 100);
    for n in 1..1300 {
        assert!(count(n, 100) <= 100);
    }
}

#[test]
fn segments_are_a_fifth_rounded_up() {
    let lengths: Vec<usize> = [0, 1, 4, 5, 6, 10, 11, 400].iter().map(|n| segment_len(*n)).collect();
    assert_eq!(lengths, vec![1, 1, 1, 1, 2, 2, 3, 80]);
    assert_eq!(segments(1), ((0, 1), (0, 1)));
    assert_eq!(segments(11), ((0, 3), (8, 11)));
}

#[test]
fn the_window_spans_the_steepest_rise() {
    let commits: Vec<CommitRecord> = (0..6).map(|i| commit(i, vec![("a.c", 1, 1)])).collect();
    let shares = [10.0, 30.0, 20.0, 60.0, 55.0, 40.0];
    let mut points = Vec::new();
    for (i, share) in shares.iter().enumerate() {
        let before = if i == 0 { 0.0 } else { shares[i - 1] };
        points.push(SharePoint { idx: i, share: double(*share), rise: double(share - before) });
    }
    let window: Vec<i64> =
        transition_window_commits(&commits, &points).iter().map(|c| c.timestamp).collect();
    assert_eq!(window, vec![0, 1, 2, 3, 4]);
}

#[test]
fn without_a_clear_rise_the_window_is_the_churn() {
    let commits = vec![
        commit(1, vec![("a.c", 5, 0)]),
        commit(2, vec![("a.c", 0, 5)]),
        commit(3, vec![("a.rs", 5, 0)]),
        commit(4, vec![("a.rs", 0, 5)]),
        commit(5, vec![("a.md", 5, 5)]),
    ];
    let points: Vec<SharePoint> = (0..5)
        .map(|i| SharePoint { idx: i, share: double(1.0), rise: double(4.9) })
        .collect();
    let window: Vec<i64> =
        transition_window_commits(&commits, &points).iter().map(|c| c.timestamp).collect();
    assert_eq!(window, vec![2, 3]);
    assert!(transition_window_commits(&commits, &points[..1].to_vec()).is_empty());
    assert_eq!(transition_churn(&commits[1]), 5);
    assert_eq!(transition_churn(&commits[0]), 0);
    let huge = commit(6, vec![("a.rs", u64::MAX, 0), ("b.rs", 2, 0)]);
    assert_eq!(transition_churn(&huge), u64::MAX);
}

#[test]
fn dominance_takes_the_largest_contender() {
    let entry = |language: &str, share: f64| LanguageShare {
        language: language.into(),
        share: double(share),
    };
    let entries = vec![
        entry("Rust", 60.0),
        entry("C", 15.0),
        entry("Go", 16.0),
        entry("Zig", 16.0),
        entry("Nim", 14.9),
        entry("Odd", f64::NAN),
    ];
    assert_eq!(dominant_non_rust(&entries), Some(3));
    assert_eq!(dominant_non_rust(&entries[..1].iter().map(|e| entry(&e.language, 99.0)).collect()), None);
}

fn shares(before: f64, after: f64, from: &str) -> SegmentShares {
    SegmentShares {
        early: vec![LanguageShare { language: from.into(), share: double(90.0) }],
        rust_before: double(before),
        rust_after: double(after),
        rise_floor: double(before + 5.0),
        rise: double(after - before),
    }
}

#[test]
fn verdicts_follow_the_thresholds() {
    let v = transition_verdict(&shares(15.0, 40.0, "C"), 500);
    assert!(v.rising && v.strong);
    assert_eq!(v.from_language.as_deref(), Some("C"));
    assert!(!transition_verdict(&shares(15.0, 40.0, "C"), 499).strong);
    assert!(!transition_verdict(&shares(15.0, 39.9, "C"), 500).strong);
    assert!(!transition_verdict(&shares(36.0, 90.0, "C"), 500).strong);
    assert!(transition_verdict(&shares(36.0, 90.0, "C"), 500).from_language.is_none());
    assert!(transition_verdict(&shares(10.0, 15.0, "C"), 500).from_language.is_none());
    assert!(!transition_verdict(&shares(10.0, 15.0, "C"), 500).rising);
    let weak = transition_verdict(&shares(10.0, 20.0, "C"), 500);
    assert!(weak.rising && !weak.strong);
    assert_eq!(weak.from_language.as_deref(), Some("C"));
    assert!(transition_verdict(&shares(15.0, 90.0, "Makefile"), 500).from_language.is_none());
}

#[test]
fn an_early_share_must_be_below_the_threshold() {
    let verdict = |before: f64| {
        let shares = SegmentShares {
            early: vec![LanguageShare { language: "C".into(), share: double(60.0) }],
            rust_before: double(before),
            rust_after: double(90.0),
            rise_floor: double(before + 5.0),
            rise: double(90.0 - before),
        };
        transition_verdict(&shares, 500)
    };
    assert!(verdict(34.96).strong);
    assert!(!verdict(35.0).strong);
    assert_eq!(verdict(35.0).from_language, None);
    // Its rounded share is stored, and still tells of the transition.
    let stored = Some(double(round1(34.96)));
    assert_eq!(stored, Some(double(35.0)));
    assert!(strong_transition_from_stored(
        Some(double(round1(90.0 - 34.96))),
        stored,
        Some(double(90.0)),
        Some("C")
    ));
    // Rounding to tenths keeps to the side of a whole number.
    for tenth in 0..1000 {
        let x = f64::from(tenth) * 0.1003;
        for threshold in [25.0, 35.0, 40.0] {
            assert!(x < threshold || round1(x) >= threshold);
            assert!(x > threshold || round1(x) <= threshold);
        }
    }
}

#[test]
fn points_stand_at_their_samples() {
    let commits: Vec<CommitRecord> = (0..250).map(|i| commit(i, vec![("a.rs", 1, 0)])).collect();
    let samples = sample_composition(&commits, 100).unwrap();
    let points = share_points(&samples);
    assert_eq!(points.len(), 84);
    assert_eq!(points[1].idx, 3);
    assert_eq!(points[83].idx, 249);
    assert_eq!(number(points[83].share), 100.0);
    assert_eq!(number(points[83].rise), 0.0);

    let mixed = vec![
        commit(1, vec![("a.py", 30, 0)]),
        commit(2, vec![("a.rs", 7, 0)]),
        commit(3, vec![("a.rs", 6, 0), ("a.py", 0, 30)]),
        commit(4, vec![("a.rs", 0, 13)]),
    ];
    let samples = sample_composition(&mixed, 400).unwrap();
    let points = share_points(&samples);
    let share = (7.0 / 37.0) * 100.0;
    let shares: Vec<f64> = points.iter().map(|p| number(p.share)).collect();
    assert_eq!(shares, vec![0.0, share, 100.0, 0.0]);
    let rises: Vec<f64> = points[1..].iter().map(|p| number(p.rise)).collect();
    assert_eq!(rises, vec![share, 100.0 - share, -100.0]);
    assert_eq!(number(rust_share(&samples[1].net)), share);
}

#[test]
fn segments_average_in_doubles() {
    let mut commits = Vec::new();
    for i in 0..37u64 {
        commits.push(commit(
            i as i64 * 5000,
            vec![("a.py", 13 + i, i * i % 11), ("b.rs", i * 7 % 23, i % 3), ("c.go", i % 5, 0)],
        ));
    }
    let history = analyze_commits(&commits);
    assert_eq!(history.total_commits, 37);
}

#[test]
fn strong_histories_are_strong_when_read_back() {
    // Nearly 35 percent Rust at first, which is stored as 35.0.
    let commits = vec![
        commit(1_000, vec![("a.py", 6504, 0), ("a.rs", 3496, 0)]),
        commit(2_000, vec![("a.py", 0, 3000), ("b.rs", 4000, 0)]),
        commit(3_000, vec![("a.py", 0, 3000), ("b.rs", 4000, 0)]),
    ];
    let h = analyze_commits(&commits);
    assert!(h.strong_transition);
    assert_eq!(h.rust_pct_before.map(number), Some(35.0));
    assert!(strong_transition_from_stored(
        h.transition_magnitude,
        h.rust_pct_before,
        h.rust_pct_after,
        h.from_language.as_deref()
    ));
}

#[test]
fn stored_histories_can_be_strong_again() {
    let d = |x: f64| Some(double(x));
    assert!(strong_transition_from_stored(d(25.0), d(35.0), d(40.0), Some("C")));
    assert!(!strong_transition_from_stored(d(24.9), d(35.0), d(40.0), Some("C")));
    assert!(!strong_transition_from_stored(d(25.0), d(35.1), d(40.0), Some("C")));
    assert!(!strong_transition_from_stored(d(25.0), d(35.0), d(39.9), Some("C")));
    assert!(!strong_transition_from_stored(d(25.0), d(35.0), d(40.0), None));
    assert!(!strong_transition_from_stored(None, d(35.0), d(40.0), Some("C")));
    assert!(!strong_transition_from_stored(d(25.0), None, d(40.0), Some("C")));
    assert!(!strong_transition_from_stored(d(f64::NAN), d(35.0), d(40.0), Some("C")));
}

#[test]
fn budgets_multiply_the_timeout() {
    let standard = HistoryOptions::standard(7);
    assert_eq!(standard.repo_budget(), 21);
    assert_eq!(standard.sample_points, 400);
    assert!(!standard.macro_mode);
    let deep = HistoryOptions::macro_(7);
    assert_eq!(deep.repo_budget(), 105);
    assert_eq!(deep.sample_points, 1200);
    assert!(deep.macro_mode);
    assert_eq!(HistoryOptions::standard(MAX_NANOS).repo_budget(), MAX_NANOS);
    assert_eq!(HistoryOptions::standard(u128::MAX).repo_budget(), MAX_NANOS);
}

#[test]
fn durations_are_whole_days_and_at_least_one() {
    assert_eq!(duration_days(1_700_000_000, 1_700_000_000 + 86_400 * 3 + 86_399), 3);
    assert_eq!(duration_days(1_700_000_000, 1_700_000_000 + 86_399), 1);
    assert_eq!(duration_days(1_700_000_000, 1_600_000_000), 1);
    assert_eq!(duration_days(0, 1_700_000_000), 1);
    assert_eq!(duration_days(1_700_000_000, 0), 1);
    // The whole range of the calendar, and one second past either end.
    assert_eq!(
        duration_days(FIRST_SECOND, LAST_SECOND) as i64,
        (LAST_SECOND - FIRST_SECOND) / 86_400
    );
    assert_eq!(duration_days(FIRST_SECOND - 1, LAST_SECOND), 1);
    assert_eq!(duration_days(FIRST_SECOND, LAST_SECOND + 1), 1);
}

#[test]
fn windows_are_totalled() {
    let c1 = commit(50, vec![("a.rs", 5, 1), ("b.c", 2, 4)]);
    let c2 = commit(20, vec![("a.rs", 10, 0)]);
    let totals = window_totals(&vec![&c1, &c2]).unwrap();
    assert_eq!(totals.lines_added, 17);
    assert_eq!(totals.lines_removed, 5);
    assert_eq!(totals.churn, 22);
    assert_eq!(totals.commit_count, 2);
    assert_eq!((totals.min_ts, totals.max_ts), (20, 50));
    let big = commit(1, vec![("a.rs", u64::MAX, 0)]);
    assert!(window_totals(&vec![&big]).is_some());
    assert!(window_totals(&vec![&big, &c2]).is_none());
    let removed = commit(1, vec![("a.rs", u64::MAX, 1)]);
    assert!(window_totals(&vec![&removed]).is_none());
}

#[test]
fn ai_scores_count_size_wording_and_bursts() {
    let score = |window: &Vec<&CommitRecord>, added, removed| {
        number(compute_ai_assist_score(window, added, removed))
    };
    let day = 86_400;
    let commits: Vec<CommitRecord> =
        (0..10).map(|i| titled(if i < 4 { "Porting foo" } else { "fix" }, 2001, i * 3600)).collect();
    let window: Vec<&CommitRecord> = commits.iter().collect();
    assert_eq!(number(burst_score(&window)), 0.25);
    // Size, wording of four in ten, ten big commits and a burst.
    assert_eq!(score(&window, 5001, 0), 0.9);
    assert_eq!(score(&window, 5000, 0), 0.75);
    assert_eq!(score(&window, 2000, 0), 0.6);
    assert_eq!(score(&window, u64::MAX, u64::MAX), 0.9);

    let apart: Vec<CommitRecord> = (0..5).map(|i| titled("fix", 2000, i * day)).collect();
    let window: Vec<&CommitRecord> = apart.iter().collect();
    // Any two days hold three commits, the ends included.
    assert_eq!(number(burst_score(&window)), 0.08);
    assert_eq!(score(&window, 1, 1), 0.08);
    let five: Vec<CommitRecord> = (0..5).map(|i| titled("fix", 1, 100 - i)).collect();
    let window: Vec<&CommitRecord> = five.iter().collect();
    assert_eq!(number(burst_score(&window)), 0.15);
    let two: Vec<&CommitRecord> = five.iter().take(2).collect();
    assert_eq!(number(burst_score(&two)), 0.0);
    assert_eq!(score(&vec![], 1, 1), 0.0);

    for n in 1..40usize {
        for templated in 0..=n {
            let commits: Vec<CommitRecord> = (0..n)
                .map(|i| titled(if i < templated { "Porting" } else { "fix" }, 1, i as i64 * 3 * day))
                .collect();
            let window: Vec<&CommitRecord> = commits.iter().collect();
            let expected = ((templated as f64 / n as f64) * 0.25).min(0.25);
            assert_eq!(score(&window, 1, 0), round2(expected.clamp(0.0, 1.0)));
        }
    }
}

#[test]
fn velocities_are_rounded_to_hundredths() {
    let c1 = commit(1_700_000_000, vec![("a.rs", 5, 1)]);
    let c2 = commit(1_700_000_000 + 3 * 86_400, vec![("a.rs", 10, 4)]);
    let e = enrichment_from_window(&vec![&c1, &c2]).unwrap();
    assert_eq!((e.lines_added, e.lines_removed), (Some(15), Some(5)));
    assert_eq!((e.rewrite_duration_days, e.commit_count), (Some(3), Some(2)));
    assert_eq!(e.rewrite_velocity.map(number), Some(6.67));
    assert_eq!(e.ai_assist_score.map(number), Some(0.0));
    assert!(e.ai_agents.is_empty());
}

#[test]
fn an_analysis_needs_lines_that_can_be_counted() {
    let empty = analyze_commits_with_sample_points(&[], 400).unwrap();
    assert_eq!(empty.total_commits, 0);
    assert_eq!(empty.rust_pct_before, None);
    assert!(empty.enrichment.lines_added.is_none());

    let one = commit(1, vec![("main.rs", 3, 0)]);
    let h = analyze_commits_with_sample_points(&[one], 400).unwrap();
    assert_eq!(h.total_commits, 1);
    assert_eq!(h.rust_pct_before, Some(double(100.0)));
    assert_eq!(h.transition_magnitude, None);
    assert!(!h.strong_transition);

    let huge = i64::MAX as u64;
    let twice = [commit(1, vec![("main.rs", huge, 0)]), commit(2, vec![("main.rs", huge, 0)])];
    assert!(analyze_commits_with_sample_points(&twice, 400).is_none());

    let window = commit(1, vec![("main.rs", u64::MAX, 1)]);
    assert!(enrichment_from_window(&vec![&window]).is_none());
    let blank = enrichment_from_window(&vec![]).unwrap();
    assert_eq!(blank.rewrite_velocity, None);
}
