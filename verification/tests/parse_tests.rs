use hydro::light::LightHours;

#[test]
fn parses_plain_list() {
    let hours = LightHours::from_str("1,2,3").unwrap();
    assert_eq!(hours.0, vec![1, 2, 3]);
}

#[test]
fn parses_single_value() {
    let hours = LightHours::from_str("8").unwrap();
    assert_eq!(hours.0, vec![8]);
}

#[test]
fn trims_whitespace_around_tokens() {
    let hours = LightHours::from_str(" 8 , 20 ").unwrap();
    assert_eq!(hours.0, vec![8, 20]);
    let hours = LightHours::from_str("\t5\n").unwrap();
    assert_eq!(hours.0, vec![5]);
}

#[test]
fn accepts_leading_zeroes() {
    let hours = LightHours::from_str("007,010").unwrap();
    assert_eq!(hours.0, vec![7, 10]);
}

#[test]
fn accepts_any_byte_value() {
    let hours = LightHours::from_str("255").unwrap();
    assert_eq!(hours.0, vec![255]);
}

#[test]
fn rejects_non_numeric_token() {
    assert!(LightHours::from_str("abc").is_err());
    assert!(LightHours::from_str("1,2x").is_err());
    assert!(LightHours::from_str("1.5").is_err());
}

#[test]
fn rejects_empty_and_blank_tokens() {
    assert!(LightHours::from_str("").is_err());
    assert!(LightHours::from_str("   ").is_err());
    assert!(LightHours::from_str("1,,2").is_err());
    assert!(LightHours::from_str("1,").is_err());
    assert!(LightHours::from_str(",1").is_err());
}

#[test]
fn rejects_values_over_a_byte() {
    assert!(LightHours::from_str("256").is_err());
    assert!(LightHours::from_str("1,999999999999").is_err());
}

#[test]
fn rejects_inner_whitespace_and_signs() {
    assert!(LightHours::from_str("1 2").is_err());
    assert!(LightHours::from_str("+3").is_err());
    assert!(LightHours::from_str("-3").is_err());
}

#[test]
fn malformed_string_falls_back_to_empty_schedule() {
    let hours = LightHours::from_str_or_default("not hours");
    assert!(hours.0.is_empty());
    for h in 0u8..=23 {
        assert!(!hours.active(h));
    }
}

#[test]
fn well_formed_string_parses_through_fallback() {
    let hours = LightHours::from_str_or_default("8,9");
    assert_eq!(hours.0, vec![8, 9]);
}
