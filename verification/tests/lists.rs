use rerust::double::Double;
use rerust::exemplars::{backfill_priority, is_exemplar, normalize_slug, parse_lines};
use rerust::origins::{lookup, lookup_in, parse_origins};

fn double(x: f64) -> Double {
    Double { bits: x.to_bits() }
}

#[test]
fn parses_comments_and_dedupes() {
    let raw = r#"
# headline
oven-sh/bun
https://github.com/uutils/coreutils/
oven-sh/bun
"#;
    let slugs = parse_lines(raw);
    assert_eq!(slugs, vec!["oven-sh/bun", "uutils/coreutils"]);
}

#[test]
fn exemplar_sorts_before_others() {
    let set: Vec<String> = vec!["oven-sh/bun".into()];
    let a = backfill_priority(
        "https://github.com/oven-sh/bun",
        90_000,
        double(0.5),
        &set,
    );
    let b = backfill_priority("https://github.com/foo/bar", 90_000, double(0.9), &set);
    assert!(a < b);
}

#[test]
fn looks_up_known_replacement() {
    assert_eq!(lookup("denoland/deno").as_deref(), Some("Node.js"));
    assert_eq!(
        lookup("https://github.com/sharkdp/fd/").as_deref(),
        Some("find")
    );
}

#[test]
fn slugs_are_normalized() {
    assert_eq!(normalize_slug("  https://github.com/Foo/Bar// "), "foo/bar");
    assert_eq!(normalize_slug("http://github.com/Foo/Bar"), "foo/bar");
    assert_eq!(normalize_slug("Foo/Bar"), "foo/bar");
    assert!(is_exemplar("https://github.com/FOO/bar/", &vec!["foo/bar".to_string()]));
    assert!(!is_exemplar("foo/baz", &vec!["foo/bar".to_string()]));
}

#[test]
fn backfill_prefers_stars_then_confidence() {
    let none: Vec<String> = vec![];
    let key = |stars, confidence| backfill_priority("a/b", stars, double(confidence), &none);
    assert_eq!(key(5, 1.0), (1, u64::MAX - 5, 0));
    assert_eq!(key(0, 0.5), (1, u64::MAX, 500_000));
    assert_eq!(key(0, 0.75), (1, u64::MAX, 250_000));
    assert_eq!(key(0, 0.9), (1, u64::MAX, 99_999));
    assert_eq!(key(0, 0.0), (1, u64::MAX, 1_000_000));
    // Outside of zero to one, and what is hardly above zero or no number at all.
    assert_eq!(key(0, -3.0).2, 1_000_000);
    assert_eq!(key(0, -0.0).2, 1_000_000);
    assert_eq!(key(0, 2.0).2, 0);
    assert_eq!(key(0, f64::INFINITY).2, 0);
    assert_eq!(key(0, f64::MIN_POSITIVE).2, 1_000_000);
    assert_eq!(key(0, f64::from_bits(1)).2, 1_000_000);
    assert_eq!(key(0, f64::NAN).2, 0);
    assert_eq!(key(0, 0.51).2, 490_000);
    let formula = |c: f64| ((1.0 - c.clamp(0.0, 1.0)) * 1_000_000.0) as u64;
    for hundredth in 0..100 {
        let (less, more) = (f64::from(hundredth) / 100.0, f64::from(hundredth + 1) / 100.0);
        assert!(key(7, more) < key(7, less));
        assert_eq!(key(7, less).2, formula(less));
    }
    for step in -500..20_500 {
        let c = f64::from(step) * 5e-5;
        assert_eq!(key(7, c).2, formula(c), "{c}");
    }
    assert!(key(10, 0.1) < key(9, 0.9));
    assert!(key(10, 0.9) < key(10, 0.1));
}

#[test]
fn origins_skip_what_is_incomplete_and_take_the_last() {
    let raw = "# head\nA/B | Foo # note\nc/d|\n|x\nplain\na/b|Bar baz \nc/d | Q\n";
    let origins = parse_origins(raw);
    assert_eq!(origins.len(), 3);
    assert_eq!(lookup_in(&origins, "https://github.com/a/B/").as_deref(), Some("Bar baz"));
    assert_eq!(lookup_in(&origins, "c/d").as_deref(), Some("Q"));
    assert_eq!(lookup_in(&origins, "x/y"), None);
    assert_eq!(lookup("nobody/nothing"), None);
}
