use rerust::detect::classify::{
    clean_origin, combined_text, compact_identity, decide, gather_facts, is_generic_wording,
    lower_tokens, named_migration_verb, product_before_rewrite_phrase, product_slug,
    strip_slug_suffix, title_is_migration, title_is_of_product, tokens_overlap, Facts, ProjectKind,
};
use rerust::detect::commits::LanguageAnalysis;
use rerust::detect::git_history::{ignores_lower, language_from_name};
use rerust::detect::score::keyword_relevance;
use rerust::detect::transitions::{
    strong_transition_from_stored, transition_verdict, HistoryAnalysis, LanguageShare,
    SegmentShares,
};
use rerust::double::Double;
use rerust::types::{Candidate, Signal};

fn nothing() -> Facts {
    Facts {
        api_shim: false,
        identity: false,
        history: false,
        migration_pr: false,
        in_place: false,
        external: false,
        competitor: false,
        targeted: false,
        origin: false,
        displaced: false,
    }
}

fn strings(words: &[&str]) -> Vec<String> {
    words.iter().map(|w| w.to_string()).collect()
}

#[test]
fn facts_decide_the_kind() {
    let rewrite = Facts { identity: true, history: true, ..nothing() };
    assert_eq!(decide(&rewrite), ProjectKind::Rewrite);
    assert_eq!(decide(&Facts { api_shim: true, ..rewrite }), ProjectKind::Neither);
    let discussed = Facts { identity: true, migration_pr: true, ..nothing() };
    assert_eq!(decide(&discussed), ProjectKind::Rewrite);
    assert_eq!(decide(&Facts { identity: true, ..nothing() }), ProjectKind::Neither);
    assert_eq!(decide(&Facts { identity: true, in_place: true, ..nothing() }), ProjectKind::Replacement);
    assert_eq!(decide(&Facts { in_place: true, ..nothing() }), ProjectKind::Neither);
    assert_eq!(decide(&Facts { in_place: true, targeted: true, ..nothing() }), ProjectKind::Replacement);
    assert_eq!(decide(&Facts { in_place: true, displaced: true, ..nothing() }), ProjectKind::Replacement);
    assert_eq!(decide(&Facts { in_place: true, history: true, ..nothing() }), ProjectKind::Replacement);
    assert_eq!(decide(&Facts { external: true, ..nothing() }), ProjectKind::Neither);
    assert_eq!(decide(&Facts { external: true, origin: true, ..nothing() }), ProjectKind::Replacement);
    assert_eq!(decide(&Facts { competitor: true, ..nothing() }), ProjectKind::Replacement);
    assert_eq!(decide(&Facts { history: true, ..nothing() }), ProjectKind::Neither);
    assert_eq!(decide(&nothing()), ProjectKind::Neither);
}

#[test]
fn third_parties_never_decide_for_rewrite() {
    for bits in 0u32..512 {
        let f = Facts {
            api_shim: bits & 1 != 0,
            identity: false,
            history: bits & 2 != 0,
            migration_pr: bits & 4 != 0,
            in_place: bits & 8 != 0,
            external: bits & 16 != 0,
            competitor: bits & 32 != 0,
            targeted: bits & 64 != 0,
            origin: bits & 128 != 0,
            displaced: bits & 256 != 0,
        };
        assert_ne!(decide(&f), ProjectKind::Rewrite);
        if f.competitor && !f.api_shim {
            assert_eq!(decide(&f), ProjectKind::Replacement);
        }
    }
}

#[test]
fn facts_are_gathered_from_all_text() {
    let c = Candidate {
        full_name: "acme/widget".into(),
        description: Some("A Widget".into()),
        signals: vec![Signal {
            kind: "issue".into(),
            detail: "Issue: Migrate Widget to Rust".into(),
            url: "u".into(),
        }],
        ..Default::default()
    };
    assert_eq!(combined_text(&c), "a widget issue: migrate widget to rust");
    let f = gather_facts(&c, &LanguageAnalysis::default(), &HistoryAnalysis::default());
    assert!(f.identity && f.migration_pr && f.in_place && f.targeted);
    assert!(!f.api_shim && !f.history && !f.external && !f.competitor && !f.origin && !f.displaced);
}

#[test]
fn verbs_need_a_named_gap() {
    assert!(named_migration_verb("rewrite foo in rust"));
    assert!(named_migration_verb("we ported our stack to rust"));
    assert!(!named_migration_verb("rewrite in rust"));
    assert!(!named_migration_verb("rewrite  in  in rust"));
    assert!(!named_migration_verb("port to rust"));
    assert!(!named_migration_verb("rewrite foo"));
}

#[test]
fn names_are_cleaned() {
    assert_eq!(clean_origin(" the a an x").as_deref(), Some("x"));
    assert_eq!(clean_origin(" a the x").as_deref(), Some("the x"));
    assert_eq!(clean_origin(": 'foo' in rust").as_deref(), Some("foo'"));
    assert_eq!(clean_origin("."), None);
    assert!(is_generic_wording("repo mentions x"));
    assert!(is_generic_wording("the named project"));
    assert!(!is_generic_wording("mentions x"));
}

#[test]
fn identity_goes_by_tokens_and_prefixes() {
    assert_eq!(lower_tokens("the script-kit_next ab größe"), strings(&["script", "kit", "größe"]));
    assert_eq!(strip_slug_suffix("foo-rs"), "foo");
    assert_eq!(strip_slug_suffix("ab-rs"), "ab-rs");
    assert_eq!(strip_slug_suffix("falkordb-rs-next-gen"), "falkordb-rs");
    assert_eq!(strip_slug_suffix("tool-next"), "tool");
    let c = Candidate { full_name: "O/Some-RUST".into(), ..Default::default() };
    assert_eq!(product_slug(&c), "some");
    assert!(tokens_overlap(&strings(&["abc"]), &strings(&["x", "abc"])));
    assert!(tokens_overlap(&strings(&["pathpick"]), &strings(&["pathpicker"])));
    assert!(!tokens_overlap(&strings(&["pathpicker"]), &strings(&["fastpathpicker"])));
    assert!(!tokens_overlap(&strings(&["path"]), &strings(&["pathpicker"])));
    assert!(compact_identity("Foo Bar", "FooBar-baz", 5));
    assert!(!compact_identity("Foo", "FooBar", 5));
    assert_eq!(
        product_before_rewrite_phrase("the next-generation falkordb engine rewritten in rust").as_deref(),
        Some("falkordb engine")
    );
    assert_eq!(product_before_rewrite_phrase("fast new tool rewritten in rust"), None);
}

#[test]
fn titles_tell_migrations_from_wishes() {
    assert!(title_is_migration("migrate it to rust"));
    assert!(!title_is_migration("migrate it to go"));
    assert!(!title_is_migration("rust docs"));
    let none: Vec<String> = vec![];
    assert!(title_is_of_product("rewrite this in rust", &none, "x", &none, &none));
    assert!(!title_is_of_product("riir: rewrite this in rust", &none, "x", &none, &none));
    assert!(title_is_of_product("riir: port wid-get", &none, "widget", &none, &none));
    assert!(!title_is_of_product("port wid-get", &none, "wid", &none, &none));
    assert_eq!(keyword_relevance("rewrite and port to rust"), 6);
    assert_eq!(keyword_relevance("Rewrite"), 0);
}

#[test]
fn ignored_paths_still_have_a_name() {
    assert!(ignores_lower("a/package.json"));
    assert!(!ignores_lower("a/PACKAGE.JSON"));
    assert_eq!(language_from_name("x/vendor/y.go"), Some("Go"));
}

#[test]
fn a_strong_verdict_is_strong_when_read_back() {
    let d = |x: f64| Double { bits: x.to_bits() };
    let shares = SegmentShares {
        early: vec![LanguageShare { language: "Go".into(), share: d(80.0) }],
        rust_before: d(20.0),
        rust_after: d(70.0),
        rise_floor: d(25.0),
        rise: d(50.0),
    };
    let verdict = transition_verdict(&shares, 10_000);
    assert!(verdict.strong);
    assert!(strong_transition_from_stored(
        Some(shares.rise),
        Some(shares.rust_before),
        Some(shares.rust_after),
        verdict.from_language.as_deref(),
    ));
}
