use gibtax::date::{convert_date, convert_timestamp_to_date_string, has_ten_byte_start};
use gibtax::error::Error;

#[test]
fn convert_date_counts_days_since_1970() {
    assert_eq!(convert_date("1970-01-01"), Ok(0));
    assert_eq!(convert_date("2024-03-15"), Ok(19797));
    assert_eq!(convert_date("2024-12-31, 16:20:00"), Ok(20088));
}

#[test]
fn convert_date_refuses_dates_that_do_not_exist() {
    assert_eq!(convert_date("2023-02-29"), Err(Error::FailedToParseDate));
    assert_eq!(convert_date("31.12.2024"), Err(Error::FailedToParseDate));
}

#[test]
fn ten_byte_start_is_checked() {
    assert!(has_ten_byte_start("2024-03-15"));
    assert!(!has_ten_byte_start("2024-03"));
    assert!(!has_ten_byte_start("2024-03-1\u{e4}x"));
}

#[test]
fn timestamp_to_date_string_formats_utc_dates() {
    assert_eq!(convert_timestamp_to_date_string(0), Ok("1970-01-01".to_string()));
    assert_eq!(
        convert_timestamp_to_date_string(19797 * 86400 + 3600),
        Ok("2024-03-15".to_string())
    );
    // A day number read as seconds stays on January 1, 1970.
    assert_eq!(convert_timestamp_to_date_string(19797), Ok("1970-01-01".to_string()));
}

#[test]
fn timestamp_to_date_string_refuses_huge_timestamps() {
    assert_eq!(convert_timestamp_to_date_string(i64::MAX), Err(Error::FailedToConvertDate));
}

#[test]
fn timestamp_to_date_string_writes_far_years_with_a_sign() {
    assert_eq!(convert_timestamp_to_date_string(253402300800), Ok("+10000-01-01".to_string()));
    assert_eq!(convert_timestamp_to_date_string(-62167219200), Ok("0000-01-01".to_string()));
    assert_eq!(convert_timestamp_to_date_string(-62167219201), Ok("-0001-12-31".to_string()));
    assert_eq!(convert_timestamp_to_date_string(-1), Ok("1969-12-31".to_string()));
}
