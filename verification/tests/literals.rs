use gors_semantic::bignum::BigNum;
use gors_semantic::exact::ExactNumber;
use gors_semantic::literals::{parse_go_imaginary, parse_go_rune};

#[test]
fn rune_escapes_decode_to_code_points_instead_of_utf8_bytes() {
    assert_eq!(parse_go_rune(r"'\a'"), Some(7));
    assert_eq!(parse_go_rune(r"'\377'"), Some(255));
    assert_eq!(parse_go_rune(r"'\xff'"), Some(255));
    assert_eq!(parse_go_rune(r#"'\"'"#), Some(u32::from(b'"')));
    assert_eq!(parse_go_rune(r"'\u12e4'"), Some(0x12e4));
    assert_eq!(parse_go_rune(r"'\U00101234'"), Some(0x10_1234));
    assert_eq!(parse_go_rune("'ä'"), Some(0xe4));
    assert_eq!(parse_go_rune("'本'"), Some(0x672c));
}

#[test]
fn rune_decoder_rejects_multiple_values_and_invalid_unicode() {
    assert_eq!(parse_go_rune("'ab'"), None);
    assert_eq!(parse_go_rune(r"'\uD800'"), None);
    assert_eq!(parse_go_rune(r"'\U00110000'"), None);
}

#[test]
fn decimal_only_imaginary_components_ignore_legacy_octal_rules() {
    assert_eq!(
        parse_go_imaginary("0123i").map(|v| v.to_spelling()).as_deref(),
        Some("123")
    );
    assert_eq!(
        parse_go_imaginary("0_123i").map(|v| v.to_spelling()).as_deref(),
        Some("123")
    );
    assert_eq!(
        parse_go_imaginary("0o123i").map(|v| v.to_spelling()).as_deref(),
        Some("83")
    );
    assert_eq!(
        parse_go_imaginary("0xabci").map(|v| v.to_spelling()).as_deref(),
        Some("2748")
    );
    assert_eq!(
        parse_go_imaginary("0x1p-2i").map(|v| v.to_spelling()).as_deref(),
        Some("1/4")
    );
}

#[test]
fn a_single_character_decodes_to_itself() {
    assert_eq!(parse_go_rune("'a'"), Some(97));
    assert_eq!(parse_go_rune("'''"), Some(39));
    assert_eq!(parse_go_rune("'é'"), Some(0xE9));
    assert_eq!(parse_go_rune("'世'"), Some(0x4E16));
    assert_eq!(parse_go_rune("'😀'"), Some(0x1F600));
}

#[test]
fn escaped_runes_stay_scalar_values() {
    assert_eq!(parse_go_rune("'\\xff'"), Some(255));
    assert_eq!(parse_go_rune("'\\377'"), Some(255));
    assert_eq!(parse_go_rune("'\\U0010ffff'"), Some(0x10FFFF));
    assert_eq!(parse_go_rune("'\\ud800'"), None);
    assert_eq!(parse_go_rune("'\\'"), None);
}

#[test]
fn fractions_are_kept_in_lowest_terms() {
    let big = |negative: bool, v: u32| BigNum { negative, magnitude: if v == 0 { vec![] } else { vec![v] } };
    assert_eq!(ExactNumber::from_fraction(&big(false, 6), &big(false, 8)).to_spelling(), "3/4");
    assert_eq!(ExactNumber::from_fraction(&big(true, 10), &big(false, 4)).to_spelling(), "-5/2");
    assert_eq!(ExactNumber::from_fraction(&big(false, 12), &big(false, 4)).to_spelling(), "3");
    assert_eq!(ExactNumber::from_fraction(&big(false, 0), &big(false, 5)).to_spelling(), "0");
    let a = ExactNumber::from_fraction(&big(false, 1), &big(false, 4));
    let b = ExactNumber::from_fraction(&big(false, 1), &big(false, 12));
    assert_eq!(a.add(&b).to_spelling(), "1/3");
}
