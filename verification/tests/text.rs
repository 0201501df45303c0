//! Texts, numbers by their bits, and lists of named values.

use dsrust::double::Double;
use dsrust::entries::{find, get, insert};
use dsrust::example::{Example, Value};
use dsrust::normalize::{normalize_text, tidy};
use dsrust::powers::log2_of_power;
use dsrust::sorted;
use dsrust::text::{
    after_prefix, comes_before, contains, decimal_text, ends_with, join, letter_or_digit,
    same_text, signed_text, split_whitespace, starts_with, trim, trim_matches, wide_decimal_text,
};

fn double(value: f64) -> Double {
    Double::from_bits(value.to_bits())
}

#[test]
fn numbers_print_in_decimal() {
    assert_eq!(decimal_text(0), "0");
    assert_eq!(decimal_text(1234567890), "1234567890");
    assert_eq!(wide_decimal_text(u64::MAX), "18446744073709551615");
    assert_eq!(signed_text(-3), "-3");
    assert_eq!(signed_text(i64::MIN), "-9223372036854775808");
    assert_eq!(signed_text(42), "42");
}

#[test]
fn texts_are_joined_and_taken_apart() {
    assert_eq!(join(&vec!["x".to_string(), "y".to_string()], ", "), "x, y");
    assert_eq!(join(&Vec::new(), ", "), "");
    assert_eq!(split_whitespace("  a \t b\nc "), ["a", "b", "c"]);
    assert_eq!(trim("\u{a0} a b \n"), "a b");
    assert_eq!(trim_matches("--a-b--", '-'), "a-b");
}

#[test]
fn texts_are_searched() {
    assert!(contains("wellington", "well"));
    assert!(contains("anything", ""));
    assert!(!contains("short", "longer than it"));
    assert!(starts_with("openai/gpt", "openai/"));
    assert!(ends_with("[[ end", "end"));
    assert_eq!(after_prefix("openai/gpt", "openai/").as_deref(), Some("gpt"));
    assert_eq!(after_prefix("gpt", "openai/"), None);
    assert!(same_text("a", "a") && !same_text("a", "b"));
}

#[test]
fn names_are_ordered_by_their_characters() {
    assert!(comes_before("", "a"));
    assert!(comes_before("a", "ab"));
    assert!(comes_before("Z", "a"));
    assert!(!comes_before("a", "a"));
    let mut entries: Vec<(String, Value)> = Vec::new();
    for name in ["b", "a", "c", "a"] {
        sorted::file(&mut entries, name.to_string(), Value::text(name));
    }
    let names: Vec<&str> = entries.iter().map(|(name, _)| name.as_str()).collect();
    assert_eq!(names, ["a", "b", "c"]);
}

#[test]
fn named_values_keep_the_order_they_came_in() {
    let mut entries: Vec<(String, Value)> = Vec::new();
    insert(&mut entries, "b".to_string(), Value::text("1"));
    insert(&mut entries, "a".to_string(), Value::text("2"));
    insert(&mut entries, "b".to_string(), Value::text("3"));
    assert_eq!(entries.len(), 2);
    assert_eq!(find(&entries, "a"), 1);
    assert_eq!(find(&entries, "none"), 2);
    assert_eq!(get(&entries, "b").and_then(|value| value.as_str()), Some("3"));
    assert!(get(&entries, "none").is_none());
}

#[test]
fn an_answer_is_compared_without_its_dress() {
    assert_eq!(normalize_text("The  Eiffel-Tower!"), "eiffeltower");
    assert_eq!(normalize_text("an apple a day"), "apple day");
    assert_eq!(normalize_text("Another Theatre"), "another theatre");
    assert_eq!(normalize_text("Caf\u{e9}"), "cafe\u{301}");
    assert_eq!(tidy("a the an"), "");
}

#[test]
fn doubles_compare_as_numbers() {
    assert!(double(1.0).exceeds(double(0.5)));
    assert!(!double(1.0).exceeds(double(1.0)));
    assert!(double(1.0).reaches(double(1.0)));
    assert!(!double(f64::NAN).exceeds(double(0.0)));
    assert!(!double(f64::NAN).reaches(double(f64::NAN)));
    assert!(double(-1.0).exceeds(double(f64::NEG_INFINITY)));
    assert!(double(f64::INFINITY).exceeds(double(f64::MAX)));
    assert!(!double(0.0).exceeds(double(-0.0)));
    assert!(double(0.0).above(double(-0.0)), "the total order tells the zeros apart");
    assert!(double(-0.0).is_zero() && Double::zero().is_zero());
    assert!(double(f64::NAN).is_nan() && !Double::one().is_nan());
    assert_eq!(Double::one().bits, 1.0f64.to_bits());
}

#[test]
fn the_logarithm_of_a_power_is_exact() {
    assert_eq!(log2_of_power(2, 10), 10);
    assert_eq!(log2_of_power(6, 4), 10);
    assert_eq!(log2_of_power(3, 1), 1);
    assert_eq!(log2_of_power(1, 7), 0);
    assert_eq!(log2_of_power(7, 0), 0);
    assert_eq!(log2_of_power(1000, 12), 119);
}

#[test]
fn a_row_knows_its_inputs() {
    let row = Example::new()
        .with("question", Value::text("q?"))
        .with("answer", Value::text("a"));
    assert!(row.inputs().is_none(), "nothing was declared");
    let declared = row.with_inputs(vec!["question".to_string()]);
    let asked = declared.inputs().expect("declared");
    assert!(asked.has("question") && !asked.has("answer"));
    assert!(declared.same(&declared.clone()));
    assert!(!declared.same(&asked));
    assert_eq!(declared.text("missing"), "");
    assert!(Value::yes().same(&Value::yes()) && !Value::yes().same(&Value::text("true")));
}

#[test]
fn a_normalized_text_is_left_as_it_is() {
    for text in ["The  Eiffel-Tower!", "an apple a day", "A", " a the an ", "\u{1}a\u{1}the b", "x_a\ty"] {
        let normal = normalize_text(text);
        assert_eq!(normalize_text(&normal), normal, "for {text:?}");
        assert!(!normal.contains("  "), "{normal:?}");
        assert!(!normal.chars().any(|c| c.is_ascii_punctuation() || c.is_ascii_uppercase()));
        assert!(!normal.split(' ').any(|word| ["a", "an", "the"].contains(&word)), "{normal:?}");
    }
}

#[test]
fn white_space_is_what_std_takes_for_it() {
    for code in 0..=0x3100u32 {
        let Some(c) = char::from_u32(code) else { continue };
        let words = split_whitespace(&format!("x{c}y"));
        assert_eq!(words.len() == 2, c.is_whitespace(), "U+{code:04X}");
    }
}

#[test]
fn a_text_beyond_ascii_is_normalized_too() {
    assert_eq!(normalize_text("THE\u{3000}\u{c9}cole\u{2003}An  \u{212a}elvin"), "e\u{301}cole kelvin");
    assert_eq!(normalize_text("\u{130}b THE\u{f1}"), "i\u{307}b then\u{303}");
    assert_eq!(normalize_text("a\u{2019}the\u{2019}an"), "\u{2019} \u{2019}");
}

#[test]
fn no_white_space_is_a_letter_or_a_digit() {
    for code in 0..=0x10ffff {
        if let Some(c) = char::from_u32(code) {
            assert!(!(c.is_whitespace() && letter_or_digit(c)), "{c:?}");
            assert_eq!(letter_or_digit(c), c.is_alphanumeric(), "{c:?}");
        }
    }
}

#[test]
fn no_character_is_left_a_capital_or_a_mark_of_ascii() {
    for code in 0..=0x10ffff {
        if let Some(c) = char::from_u32(code) {
            let normal = normalize_text(c.encode_utf8(&mut [0; 4]));
            assert!(
                !normal.chars().any(|c| c.is_ascii_uppercase() || c.is_ascii_punctuation()),
                "{c:?} became {normal:?}"
            );
        }
    }
}
