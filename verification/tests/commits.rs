use rerust::detect::commits::{analyze, is_real_application_language};
use rerust::double::Double;
use rerust::types::Candidate;

fn langs(pairs: &[(&str, u64)]) -> Vec<(String, u64)> {
    pairs
        .iter()
        .map(|(lang, bytes)| (lang.to_string(), *bytes))
        .collect()
}

fn percent(x: Double) -> f64 {
    f64::from_bits(x.bits)
}

#[test]
fn helix_like_all_rust_has_no_original_language() {
    let candidate = Candidate {
        languages: langs(&[("Rust", 980_000), ("Nix", 20_000)]),
        ..Default::default()
    };
    let analysis = analyze(&candidate);
    assert!((percent(analysis.rust_percentage) - 98.0).abs() < 0.01);
    assert!(analysis.original_language.is_none());
    assert!(analysis.rust_is_primary);
}

#[test]
fn coreutils_like_substantial_c_is_original_language() {
    let candidate = Candidate {
        languages: langs(&[("Rust", 600_000), ("C", 400_000)]),
        ..Default::default()
    };
    let analysis = analyze(&candidate);
    assert_eq!(analysis.original_language.as_deref(), Some("C"));
}

#[test]
fn makefile_is_not_original_language() {
    let candidate = Candidate {
        languages: langs(&[("Rust", 600_000), ("Makefile", 400_000)]),
        ..Default::default()
    };
    let analysis = analyze(&candidate);
    assert!(analysis.original_language.is_none());
}

#[test]
fn shell_is_not_original_language() {
    let candidate = Candidate {
        languages: langs(&[("Rust", 600_000), ("Shell", 400_000)]),
        ..Default::default()
    };
    let analysis = analyze(&candidate);
    assert!(analysis.original_language.is_none());
}

#[test]
fn rust_only_repo_has_no_original_language() {
    let candidate = Candidate {
        languages: langs(&[("Rust", 1_000_000)]),
        ..Default::default()
    };
    let analysis = analyze(&candidate);
    assert!(analysis.original_language.is_none());
}

#[test]
fn original_language_is_never_rust() {
    let candidate = Candidate {
        languages: langs(&[("Rust", 1_000_000)]),
        ..Default::default()
    };
    let analysis = analyze(&candidate);
    assert_ne!(analysis.original_language.as_deref(), Some("Rust"));
}

#[test]
fn an_empty_breakdown_has_no_rust() {
    let analysis = analyze(&Candidate::default());
    assert_eq!(percent(analysis.rust_percentage), 0.0);
    assert!(analysis.original_language.is_none());
    assert!(!analysis.rust_is_primary);
}

#[test]
fn twelve_percent_is_a_meaningful_share() {
    let candidate = Candidate {
        languages: langs(&[("rust", 88), ("Go", 12)]),
        ..Default::default()
    };
    let analysis = analyze(&candidate);
    assert_eq!(analysis.original_language.as_deref(), Some("Go"));
    assert!(analysis.rust_is_primary);
    assert_eq!(percent(analysis.rust_percentage), 88.0 / 100.0 * 100.0);

    let candidate = Candidate {
        languages: langs(&[("Rust", 881), ("Go", 119)]),
        ..Default::default()
    };
    assert!(analyze(&candidate).original_language.is_none());
}

#[test]
fn shares_are_measured_in_doubles() {
    for whole in 1..400u64 {
        for other in 0..=whole {
            let candidate = Candidate {
                languages: langs(&[("Rust", whole - other), ("Go", other)]),
                ..Default::default()
            };
            let analysis = analyze(&candidate);
            let rust = ((whole - other) as f64 / whole as f64) * 100.0;
            assert_eq!(percent(analysis.rust_percentage), rust);
            let displaced = (other as f64 / whole as f64) * 100.0 >= 12.0;
            assert_eq!(analysis.original_language.is_some(), displaced, "{other} of {whole}");
        }
    }
}

#[test]
fn the_last_of_equal_languages_is_the_original() {
    let candidate = Candidate {
        languages: langs(&[("C", 40), ("Zig", 40), ("Rust", 20)]),
        ..Default::default()
    };
    let analysis = analyze(&candidate);
    assert_eq!(analysis.original_language.as_deref(), Some("Zig"));
    assert!(!analysis.rust_is_primary);
}

#[test]
fn rust_is_primary_when_it_is_the_single_largest() {
    let primary = |pairs: &[(&str, u64)]| {
        analyze(&Candidate { languages: langs(pairs), ..Default::default() }).rust_is_primary
    };
    assert!(primary(&[("Rust", 41), ("C", 40)]));
    assert!(primary(&[("C", 40), ("Rust", 41)]));
    assert!(!primary(&[("Rust", 40), ("C", 40)]));
    assert!(!primary(&[("Rust", 39), ("Makefile", 40)]));
    assert!(!primary(&[("C", 1)]));
}

#[test]
fn noise_languages_are_no_applications() {
    assert!(is_real_application_language("C"));
    assert!(is_real_application_language("TypeScript"));
    assert!(!is_real_application_language("makefile"));
    assert!(!is_real_application_language("DOCKERFILE"));
}
