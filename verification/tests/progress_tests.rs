use ytdl_core::progress::parse_progress_from_line;

#[test]
fn parse_plain_percentage() {
    assert_eq!(parse_progress_from_line("downloaded_bytes:  62.0%"), Some(620_000));
}

#[test]
fn parse_unrelated_text() {
    assert_eq!(parse_progress_from_line("some other text"), None);
}

#[test]
fn parse_non_numeric_payload() {
    assert_eq!(parse_progress_from_line("downloaded_bytes:abc%"), None);
}

#[test]
fn parse_missing_percent_sign() {
    assert_eq!(parse_progress_from_line("downloaded_bytes:42"), None);
}

#[test]
fn parse_full_download() {
    assert_eq!(parse_progress_from_line("downloaded_bytes:100%"), Some(1_000_000));
}

#[test]
fn parse_value_past_full_is_passed_through() {
    // No clamping in the parser: that is the registry's responsibility.
    assert_eq!(parse_progress_from_line("downloaded_bytes:120.5%"), Some(1_205_000));
}

#[test]
fn parse_whitespace_around_number() {
    assert_eq!(parse_progress_from_line("downloaded_bytes: 5.25 %"), Some(52_500));
    assert_eq!(parse_progress_from_line("downloaded_bytes:\t7%\t"), Some(70_000));
}

#[test]
fn parse_empty_payload() {
    assert_eq!(parse_progress_from_line("downloaded_bytes:%"), None);
    assert_eq!(parse_progress_from_line("downloaded_bytes:"), None);
}

#[test]
fn parse_lone_decimal_point() {
    assert_eq!(parse_progress_from_line("downloaded_bytes:.%"), None);
}

#[test]
fn parse_two_decimal_points() {
    assert_eq!(parse_progress_from_line("downloaded_bytes:1.2.3%"), None);
}

#[test]
fn parse_fraction_without_integer_part() {
    // 0.5 percent is 0.005 of a download: 5000 micro-units.
    assert_eq!(parse_progress_from_line("downloaded_bytes:.5%"), Some(5_000));
}

#[test]
fn parse_trailing_decimal_point() {
    assert_eq!(parse_progress_from_line("downloaded_bytes:62.%"), Some(620_000));
}

#[test]
fn parse_zero() {
    assert_eq!(parse_progress_from_line("downloaded_bytes:0%"), Some(0));
    assert_eq!(parse_progress_from_line("downloaded_bytes:0.0%"), Some(0));
}

#[test]
fn parse_deep_fraction_truncates() {
    // The fifth fractional digit of a percentage is below one micro-unit.
    assert_eq!(parse_progress_from_line("downloaded_bytes:0.00005%"), Some(0));
    assert_eq!(parse_progress_from_line("downloaded_bytes:0.00012%"), Some(1));
}

#[test]
fn parse_wrong_prefix_case() {
    assert_eq!(parse_progress_from_line("Downloaded_bytes:50%"), None);
}

#[test]
fn parse_huge_value_saturates() {
    assert_eq!(
        parse_progress_from_line("downloaded_bytes:99999999999999999999999%"),
        Some(u64::MAX)
    );
}

#[test]
fn parse_micro_units_match_fractions() {
    // A micro-unit value is the fraction scaled by one million.
    let v = parse_progress_from_line("downloaded_bytes:  62.0%").unwrap();
    assert!((v as f64 / 1e6 - 0.62).abs() < 1e-12);
}
