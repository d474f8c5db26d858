//! Numbers and texts against those of the standard library.

use quodex::diagnostic::Diagnostic;
use quodex::double::Double;
use quodex::environment::Environment;
use quodex::ordered::Ordered;
use quodex::percent::{is_percent, remaining_of};
use quodex::text::{
    contains, ends_with, find_any, join, parse_u16, rsplit_once, same_ignoring_case, split_any,
    split_lines, split_once, split_words, starts_with, strip, strip_prefix, strip_suffix,
    strip_trailing, to_decimal, to_lower, to_signed_decimal, to_upper, trim,
};

fn double(number: f64) -> Double {
    Double::from_bits(number.to_bits())
}

fn number(double: Double) -> f64 {
    f64::from_bits(double.bits)
}

/// Numbers of every size and sign, and the special ones.
fn samples() -> Vec<f64> {
    let mut numbers = vec![
        0.0,
        -0.0,
        1.0,
        -1.0,
        0.1,
        0.2,
        0.3,
        33.3,
        58.0,
        99.99999999999999,
        100.0,
        1000.0,
        1.0 / 3.0,
        f64::MIN_POSITIVE,
        f64::MIN_POSITIVE / 2.0,
        f64::from_bits(1),
        f64::from_bits(0xf_ffff_ffff_ffff),
        f64::MAX,
        -f64::MAX,
        f64::MAX / 2.0,
        f64::EPSILON,
        9007199254740991.0,
        9007199254740993.0,
        1.8446744073709552e19,
        f64::INFINITY,
        f64::NEG_INFINITY,
        f64::NAN,
    ];
    let mut state: u64 = 0x9e37_79b9_7f4a_7c15;
    for _ in 0..60 {
        state = state.wrapping_mul(6364136223846793005).wrapping_add(1442695040888963407);
        numbers.push(f64::from_bits(state));
        numbers.push((state >> 40) as f64 / 7.0);
    }
    numbers
}

fn assert_same(actual: Double, expected: f64) {
    if expected.is_nan() {
        assert!(number(actual).is_nan());
    } else {
        assert_eq!(actual.bits, expected.to_bits(), "{expected}");
    }
}

#[test]
fn sums_are_those_of_floating_point() {
    let numbers = samples();
    for &a in &numbers {
        for &b in &numbers {
            assert_same(double(a).plus(&double(b)), a + b);
        }
    }
}

#[test]
fn quotients_are_those_of_floating_point() {
    let numbers = samples();
    for &a in &numbers {
        for &b in &numbers {
            if b > 0.0 {
                assert_same(double(a).over(&double(b)), a / b);
            }
        }
    }
}

#[test]
fn multiples_are_those_of_floating_point() {
    for &a in &samples() {
        for factor in [1u32, 3, 7, 100, 1000, u32::MAX] {
            assert_same(double(a).times(factor), a * f64::from(factor));
        }
    }
}

#[test]
fn comparisons_are_those_of_floating_point() {
    let numbers = samples();
    for &a in &numbers {
        for &b in &numbers {
            assert_eq!(double(a).le(&double(b)), a <= b);
            assert_eq!(double(a).lt(&double(b)), a < b);
        }
        assert_eq!(double(a).is_nan(), a.is_nan());
        assert_eq!(double(a).is_finite(), a.is_finite());
        assert_same(double(a).negate(), -a);
    }
}

#[test]
fn whole_numbers_are_those_of_floating_point() {
    for &a in &samples() {
        assert_eq!(double(a).truncate(), a as u64, "{a}");
        assert_eq!(double(a).round(), a.round() as u64, "{a}");
    }
    for half in [0.49999999999999994, 0.5, 1.5, 2.5, 4503599627370496.5] {
        assert_eq!(double(half).round(), half.round() as u64, "{half}");
    }
    for count in [0u64, 1, 9007199254740992, 9007199254740993, 9007199254740995, u64::MAX, 1_788_400_000_123] {
        assert_same(Double::from_count(count), count as f64);
    }
}

#[test]
fn what_remains_is_a_hundred_less_what_is_used() {
    for used in [0.0, 24.0, 33.3, 58.0, 99.99999999999999, 100.0, 1e-20] {
        assert!(is_percent(&double(used)));
        assert_same(remaining_of(&double(used)), 100.0 - used);
        assert!(is_percent(&remaining_of(&double(used))));
    }
    for none in [-1e-300, 100.00000000000001, f64::NAN, f64::INFINITY] {
        assert!(!is_percent(&double(none)));
    }
    let less = remaining_of(&double(70.1));
    assert!(less.le(&remaining_of(&double(70.0))));
}

#[test]
fn white_space_is_that_of_unicode() {
    for code in 0..=0x11_0000u32 {
        if let Some(c) = char::from_u32(code) {
            if c.is_whitespace() || code < 0x100 || code % 997 == 0 {
                let text = format!("{c}a{c}");
                assert_eq!(trim(&text), text.trim(), "{code:x}");
            }
        }
    }
}

const TEXTS: [&str; 14] = [
    "",
    " ",
    "a",
    " a b ",
    "a\r\nb\n\nc\r",
    "\n",
    "key : value : more",
    "https://host/path",
    "[::1]:80",
    "ÄÖa Z",
    "x;;y;",
    "\u{3000}\u{e9}\u{2028}",
    "http=1;https=2",
    "\"quoted\",\"more\"",
];

#[test]
fn texts_are_taken_apart_as_by_the_standard_library() {
    for text in TEXTS {
        assert_eq!(split_lines(text), text.lines().collect::<Vec<_>>());
        assert_eq!(split_words(text), text.split_whitespace().collect::<Vec<_>>());
        assert_eq!(split_any(text, &vec![';', ',']), text.split([';', ',']).collect::<Vec<_>>());
        assert_eq!(strip(text, &vec!['[', ']', '"']), text.trim_matches(['[', ']', '"']));
        assert_eq!(strip_trailing(text, &vec!['\r', '/']), text.trim_end_matches(['\r', '/']));
        assert_eq!(to_lower(text), text.to_ascii_lowercase());
        assert_eq!(to_upper(text), text.to_ascii_uppercase());
        assert!(same_ignoring_case(text, &text.to_ascii_uppercase()));
        let at = text.chars().position(|c| c == ':' || c == '=').unwrap_or(text.chars().count());
        assert_eq!(find_any(text, &vec![':', '=']), at);
        for part in ["", ":", "http", " b ", "://", "\"", "80"] {
            assert_eq!(split_once(text, part), text.split_once(part), "{text:?} {part:?}");
            assert_eq!(contains(text, part), text.contains(part));
            assert_eq!(starts_with(text, part), text.starts_with(part));
            assert_eq!(ends_with(text, part), text.ends_with(part));
            assert_eq!(strip_prefix(text, part), text.strip_prefix(part));
            assert_eq!(strip_suffix(text, part), text.strip_suffix(part));
        }
        for c in [':', '\n', ';'] {
            assert_eq!(rsplit_once(text, c), text.rsplit_once(c));
        }
    }
    assert_eq!(
        join(&vec!["a".to_owned(), "".to_owned(), "c".to_owned()], ", "),
        ["a", "", "c"].join(", ")
    );
    assert_eq!(join(&vec![], ", "), "");
}

#[test]
fn numerals_are_those_of_the_standard_library() {
    for n in [0u64, 9, 10, 99, 100, 65535, u64::MAX] {
        assert_eq!(to_decimal(n), n.to_string());
    }
    for n in [0i32, -1, 28, i32::MIN, i32::MAX] {
        assert_eq!(to_signed_decimal(n), n.to_string());
    }
    for text in ["0", "007", "+5", "65535", "65536", "", "+", "-1", " 1", "1a", "99999999999999999999"] {
        assert_eq!(parse_u16(text), text.parse::<u16>().ok(), "{text}");
    }
}

#[test]
fn entries_are_kept_in_the_order_of_their_keys() {
    let mut ordered = Ordered::new();
    for key in ["b", "a", "ab", "\u{10000}", "\u{ffff}", "b"] {
        let count = ordered.len();
        ordered = ordered.insert(key.to_owned(), count);
    }
    let keys: Vec<&str> = (0..ordered.len()).map(|at| ordered.key(at).as_str()).collect();
    assert_eq!(keys, vec!["a", "ab", "b", "\u{ffff}", "\u{10000}"]);
    assert_eq!(*ordered.value(2), 5);
}

#[test]
fn variables_are_looked_up_by_their_names() {
    let variables = [("A", " x "), ("B", "  "), ("A", "later"), ("C", "c")];
    let environment = Environment::new(
        variables
            .iter()
            .map(|(name, value)| ((*name).to_owned(), (*value).to_owned()))
            .collect(),
    );
    assert_eq!(environment.get("A").as_deref(), Some(" x "));
    assert_eq!(environment.get_trimmed("A").as_deref(), Some("x"));
    assert_eq!(environment.get_trimmed("B"), None);
    assert_eq!(environment.get_either("D", "C").as_deref(), Some("c"));
    let trimmed = environment.trimmed();
    assert_eq!(trimmed.get("A").as_deref(), Some("x"));
    assert_eq!(trimmed.get("B"), None);
    assert_eq!(trimmed.get_either("B", "C").as_deref(), Some("c"));
}

#[test]
fn diagnostics_carry_their_parts() {
    let diagnostic = Diagnostic::new("CRV-101", "message")
        .with_detail("detail")
        .with_account(Some("account".to_owned()));
    assert_eq!(diagnostic.line(), "CRV-101: message");
    assert_eq!(diagnostic.detail.as_deref(), Some("detail"));
    assert_eq!(diagnostic.account_id.as_deref(), Some("account"));
    assert_eq!(diagnostic.code, "CRV-101");
}
