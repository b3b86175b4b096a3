use pepemap::claim::{Inscription, parse_number};

#[test]
fn parse_number_supports_uppercase_suffix() {
    let inscription = Inscription::new(None, Some(b"123.PEPEMAP".to_vec()));
    assert_eq!(parse_number(&inscription), Some(123));
}

#[test]
fn parse_number_trims_whitespace() {
    let inscription = Inscription::new(None, Some(b" 456 .pepemap \n".to_vec()));
    assert_eq!(parse_number(&inscription), Some(456));
}

#[test]
fn parse_number_rejects_invalid_suffix() {
    let inscription = Inscription::new(None, Some(b"789.invalid".to_vec()));
    assert_eq!(parse_number(&inscription), None);
}

#[test]
fn parse_number_rejects_zero() {
    let inscription = Inscription::new(None, Some(b"0.pepemap".to_vec()));
    assert_eq!(parse_number(&inscription), None);
}

#[test]
fn parse_number_accepts_the_maximum() {
    let inscription = Inscription::new(None, Some(b"5000000.pepemap".to_vec()));
    assert_eq!(parse_number(&inscription), Some(5_000_000));
}

#[test]
fn parse_number_rejects_one_past_the_maximum() {
    let inscription = Inscription::new(None, Some(b"5000001.pepemap".to_vec()));
    assert_eq!(parse_number(&inscription), None);
}

#[test]
fn parse_number_rejects_far_out_of_range_values() {
    let inscription = Inscription::new(None, Some(b"99999999999999999999.pepemap".to_vec()));
    assert_eq!(parse_number(&inscription), None);
}

#[test]
fn parse_number_tolerates_leading_zeros() {
    let inscription = Inscription::new(None, Some(b"007.pepemap".to_vec()));
    assert_eq!(parse_number(&inscription), Some(7));
}

#[test]
fn parse_number_accepts_mixed_case_suffix() {
    let inscription = Inscription::new(None, Some(b"42.PePeMaP".to_vec()));
    assert_eq!(parse_number(&inscription), Some(42));
}

#[test]
fn parse_number_rejects_empty_prefix() {
    let inscription = Inscription::new(None, Some(b".pepemap".to_vec()));
    assert_eq!(parse_number(&inscription), None);
}

#[test]
fn parse_number_rejects_missing_dot() {
    let inscription = Inscription::new(None, Some(b"42pepemap".to_vec()));
    assert_eq!(parse_number(&inscription), None);
}

#[test]
fn parse_number_rejects_trailing_garbage() {
    let inscription = Inscription::new(None, Some(b"42.pepemapx".to_vec()));
    assert_eq!(parse_number(&inscription), None);
}

#[test]
fn parse_number_rejects_non_numeric_prefix() {
    let inscription = Inscription::new(None, Some(b"4a2.pepemap".to_vec()));
    assert_eq!(parse_number(&inscription), None);
}

#[test]
fn parse_number_rejects_empty_body() {
    let inscription = Inscription::new(None, Some(Vec::new()));
    assert_eq!(parse_number(&inscription), None);
}

#[test]
fn parse_number_rejects_absent_body() {
    let inscription = Inscription::new(None, None);
    assert_eq!(parse_number(&inscription), None);
}

#[test]
fn parse_number_rejects_invalid_utf8() {
    let inscription = Inscription::new(None, Some(vec![0xFF, 0xFE, 0x42]));
    assert_eq!(parse_number(&inscription), None);
}

#[test]
fn parse_number_trims_unicode_whitespace() {
    let inscription = Inscription::new(None, Some("\u{00A0}42.pepemap\u{2028}".as_bytes().to_vec()));
    assert_eq!(parse_number(&inscription), Some(42));
}

#[test]
fn parse_number_rejects_inner_whitespace_in_digits() {
    let inscription = Inscription::new(None, Some(b"4 2.pepemap".to_vec()));
    assert_eq!(parse_number(&inscription), None);
}
