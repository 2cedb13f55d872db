use rerust::double::Double;
use rerust::order::{stable_order, SortKey};
use rerust::text;
use rerust::text_model::CharClass;

fn key(first: i128, second: i128) -> SortKey {
    SortKey { first, second, third: 0, fourth: 0 }
}

#[test]
fn equal_keys_keep_their_order() {
    let keys = vec![key(2, 0), key(1, 5), key(2, 0), key(1, 4), key(-3, 9)];
    assert_eq!(stable_order(&keys), vec![4, 3, 1, 0, 2]);
    assert!(stable_order(&vec![]).is_empty());
}

#[test]
fn doubles_compare_as_numbers() {
    let samples = [
        0.0,
        -0.0,
        1.0,
        -1.0,
        0.1,
        1e300,
        -1e300,
        5e-324,
        f64::INFINITY,
        f64::NEG_INFINITY,
        f64::NAN,
    ];
    for x in samples {
        for y in samples {
            let a = Double { bits: x.to_bits() };
            let b = Double { bits: y.to_bits() };
            assert_eq!(a.is_at_least(b), x >= y, "{x} >= {y}");
            assert_eq!(a.is_above(b), x > y, "{x} > {y}");
        }
    }
}

#[test]
fn texts_are_searched_and_split_as_std_does() {
    let samples = ["", "a", "aXbX", "  über  uns ", "a\r\nb\n\nc", "\n", "x/y/z", "ÄÖ ß", "--a-b--"];
    for s in samples {
        assert_eq!(text::words(s), s.split_whitespace().collect::<Vec<_>>());
        assert_eq!(text::lines(s), s.lines().collect::<Vec<_>>());
        assert_eq!(text::trim(s, CharClass::Whitespace), s.trim());
        assert_eq!(text::trim_end(s, CharClass::Only('-')), s.trim_end_matches('-'));
        assert_eq!(text::trim_start(s, CharClass::Only('-')), s.trim_start_matches('-'));
        assert_eq!(text::split(s, CharClass::Only('/')), s.split('/').collect::<Vec<_>>());
        assert_eq!(text::after_last(s, '/'), s.rsplit('/').next().unwrap());
        assert_eq!(text::before_first(s, '/'), s.split('/').next().unwrap());
        assert_eq!(text::byte_len(s), s.len());
        assert_eq!(text::replace_char(s, 'X', "yz"), s.replace('X', "yz"));
        for p in ["", "X", "bX", "ß", "\n", "zz", "aX"] {
            assert_eq!(text::contains(s, p), s.contains(p));
            assert_eq!(text::starts_with(s, p), s.starts_with(p));
            assert_eq!(text::ends_with(s, p), s.ends_with(p));
            assert_eq!(text::split_once(s, p), s.split_once(p));
            assert_eq!(text::after_last_text(s, p), s.rsplit(p).next().unwrap_or(s), "{s:?} {p:?}");
        }
        for t in samples {
            assert_eq!(text::equal(s, t), s == t);
            assert_eq!(text::precedes(s, t), s < t);
            assert_eq!(text::eq_ignore_ascii_case(s, t), s.eq_ignore_ascii_case(t));
        }
    }
    assert_eq!(text::trim_start_text("ababc", "ab"), "c");
    assert_eq!(text::trim_start_text("abc", ""), "abc");
    assert!(text::eq_ignore_ascii_case("RuSt", "rust"));
    assert_eq!(text::without("a-b c", CharClass::NotAlphanumeric), "abc");
    assert_eq!(text::join(&vec!["a".into(), "".into(), "b".into()], ", "), "a, , b");
}

#[test]
fn numbers_are_read_as_std_does() {
    for s in [
        "0", "+7", "-7", "-0", "", "+", "-", "+-1", "1 ", "007", "9223372036854775807",
        "9223372036854775808", "-9223372036854775808", "-9223372036854775809",
        "18446744073709551615", "18446744073709551616", "٣",
    ] {
        assert_eq!(text::parse_i64(s), s.parse::<i64>().ok(), "{s:?}");
        assert_eq!(text::parse_unsigned(s, u64::MAX), s.parse::<u64>().ok(), "{s:?}");
        assert_eq!(text::parse_unsigned(s, 255), s.parse::<u8>().ok().map(u64::from), "{s:?}");
    }
    for n in [0, 9, 10, 1234567890, u64::MAX] {
        assert_eq!(text::decimal(n), n.to_string());
    }
}
