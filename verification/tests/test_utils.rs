use wxrust::utils::{parse_date_boundary, parse_date_range, parse_stamp, Date, DateError};

fn ymd(year: u32, month: u32, day: u32) -> Date {
    Date { year, month, day }
}

#[test]
fn test_parse_date_boundary_full_date_ignores_end() {
    assert_eq!(parse_date_boundary("20250527", false), Ok(ymd(2025, 5, 27)));
    assert_eq!(parse_date_boundary("20250527", true), Ok(ymd(2025, 5, 27)));
    assert_eq!(parse_date_boundary("2025-05-27", false), Ok(ymd(2025, 5, 27)));
    assert_eq!(parse_date_boundary("2025-05-27", true), Ok(ymd(2025, 5, 27)));
}

#[test]
fn test_parse_date_boundary_month() {
    assert_eq!(parse_date_boundary("2025-05", false), Ok(ymd(2025, 5, 1)));
    assert_eq!(parse_date_boundary("2025-05", true), Ok(ymd(2025, 5, 31)));
    assert_eq!(parse_date_boundary("202504", false), Ok(ymd(2025, 4, 1)));
    assert_eq!(parse_date_boundary("202504", true), Ok(ymd(2025, 4, 30)));
    assert_eq!(parse_date_boundary("2025-12", true), Ok(ymd(2025, 12, 31)));
    assert_eq!(parse_date_boundary("2025-1", true), Ok(ymd(2025, 1, 31)));
    assert_eq!(parse_date_boundary("9999-12", true), Ok(ymd(9999, 12, 31)));
}

#[test]
fn test_parse_date_boundary_year() {
    assert_eq!(parse_date_boundary("2025", true), Ok(ymd(2025, 12, 31)));
    assert_eq!(parse_date_boundary("2025", false), Ok(ymd(2025, 1, 1)));
    assert_eq!(parse_date_boundary("0000", false), Ok(ymd(0, 1, 1)));
    assert_eq!(parse_date_boundary("-2025-", true), Ok(ymd(2025, 12, 31)));
}

#[test]
fn test_parse_date_boundary_february() {
    assert_eq!(parse_date_boundary("2024-02", true), Ok(ymd(2024, 2, 29)));
    assert_eq!(parse_date_boundary("2025-02", true), Ok(ymd(2025, 2, 28)));
    assert_eq!(parse_date_boundary("2000-02", true), Ok(ymd(2000, 2, 29)));
    assert_eq!(parse_date_boundary("1900-02", true), Ok(ymd(1900, 2, 28)));
    assert_eq!(parse_date_boundary("2024-02-29", false), Ok(ymd(2024, 2, 29)));
    assert_eq!(parse_date_boundary("2025-02-29", false), Err(DateError::InvalidDate));
}

#[test]
fn test_parse_date_boundary_delimiters() {
    assert_eq!(parse_date_boundary("2025/05/27", false), Ok(ymd(2025, 5, 27)));
    assert_eq!(parse_date_boundary("2025.05.27", false), Ok(ymd(2025, 5, 27)));
    assert_eq!(parse_date_boundary("2025-5/7", false), Ok(ymd(2025, 5, 7)));
    assert_eq!(parse_date_boundary("2025--05..27", true), Ok(ymd(2025, 5, 27)));
    assert_eq!(parse_date_boundary("2025-005-007", true), Ok(ymd(2025, 5, 7)));
}

#[test]
fn test_parse_date_boundary_errors() {
    assert_eq!(parse_date_boundary("", false), Err(DateError::EmptyDate));
    assert_eq!(parse_date_boundary("-/.", false), Err(DateError::EmptyDate));
    assert_eq!(parse_date_boundary("2025-05-27-01", false), Err(DateError::TooManyParts));
    assert_eq!(parse_date_boundary("20255", false), Err(DateError::InvalidCompact));
    assert_eq!(parse_date_boundary("2025052", false), Err(DateError::InvalidCompact));
    assert_eq!(parse_date_boundary("202505271", false), Err(DateError::InvalidCompact));
    assert_eq!(parse_date_boundary("abcd", false), Err(DateError::InvalidYear));
    assert_eq!(parse_date_boundary("20x5-05", false), Err(DateError::InvalidYear));
    assert_eq!(parse_date_boundary("+025-05", false), Err(DateError::InvalidYear));
    assert_eq!(parse_date_boundary("202-05", false), Err(DateError::YearNotFourDigits));
    assert_eq!(parse_date_boundary("20255-05", false), Err(DateError::YearNotFourDigits));
    assert_eq!(parse_date_boundary("2025-13", false), Err(DateError::InvalidMonth));
    assert_eq!(parse_date_boundary("2025-00", false), Err(DateError::InvalidMonth));
    assert_eq!(parse_date_boundary("202500", true), Err(DateError::InvalidMonth));
    assert_eq!(parse_date_boundary("2025-ab", false), Err(DateError::InvalidMonth));
    assert_eq!(parse_date_boundary("2025-99999999999999999999", false), Err(DateError::InvalidMonth));
    assert_eq!(parse_date_boundary("2025-05-xx", false), Err(DateError::InvalidDay));
    assert_eq!(parse_date_boundary("2025-05-32", false), Err(DateError::InvalidDate));
    assert_eq!(parse_date_boundary("2025-05-00", false), Err(DateError::InvalidDate));
    assert_eq!(parse_date_boundary("20250431", true), Err(DateError::InvalidDate));
    assert_eq!(parse_date_boundary("2025-05-99999999999999999999", false), Err(DateError::InvalidDate));
}

#[test]
fn test_parse_date_boundary_error_does_not_depend_on_end() {
    for text in ["", "2025-13", "20255", "2025-05-32", "1-2-3-4", "x"] {
        assert_eq!(parse_date_boundary(text, false), parse_date_boundary(text, true));
        assert!(parse_date_boundary(text, false).is_err());
    }
}

#[test]
fn test_date_error_messages() {
    assert_eq!(DateError::EmptyDate.message(), "Empty date string");
    assert_eq!(DateError::TooManyParts.message(), "Too many parts");
    assert_eq!(DateError::InvalidCompact.message(), "Invalid compact date format");
    assert_eq!(DateError::InvalidYear.message(), "Invalid year");
    assert_eq!(DateError::YearNotFourDigits.message(), "Year must be 4 digits");
    assert_eq!(DateError::InvalidMonth.message(), "Invalid month");
    assert_eq!(DateError::InvalidDay.message(), "Invalid day");
    assert_eq!(DateError::InvalidDate.message(), "Invalid date");
    assert_eq!(DateError::InvalidRange.message(), "Invalid range format");
}

#[test]
fn test_parse_date_range_two_months() {
    assert_eq!(parse_date_range("2025-01..2025-03"), Ok((ymd(2025, 1, 1), ymd(2025, 3, 31))));
}

#[test]
fn test_parse_date_range_single_expression() {
    assert_eq!(parse_date_range("2025"), Ok((ymd(2025, 1, 1), ymd(2025, 12, 31))));
    assert_eq!(parse_date_range("2024-02"), Ok((ymd(2024, 2, 1), ymd(2024, 2, 29))));
    assert_eq!(parse_date_range("20250527"), Ok((ymd(2025, 5, 27), ymd(2025, 5, 27))));
    assert_eq!(parse_date_range("2025.05.27"), Ok((ymd(2025, 5, 27), ymd(2025, 5, 27))));
}

#[test]
fn test_parse_date_range_is_not_reordered() {
    assert_eq!(parse_date_range("2025-03..2025-01"), Ok((ymd(2025, 3, 1), ymd(2025, 1, 31))));
    assert_eq!(parse_date_range("2025..2024"), Ok((ymd(2025, 1, 1), ymd(2024, 12, 31))));
}

#[test]
fn test_parse_date_range_mixed_forms() {
    assert_eq!(parse_date_range("2024..20250527"), Ok((ymd(2024, 1, 1), ymd(2025, 5, 27))));
    assert_eq!(parse_date_range("2025/05/27..2025.06"), Ok((ymd(2025, 5, 27), ymd(2025, 6, 30))));
    // of three dots the first two part the range, the third belongs to the end
    assert_eq!(parse_date_range("2025...2026"), Ok((ymd(2025, 1, 1), ymd(2026, 12, 31))));
}

#[test]
fn test_parse_date_range_errors() {
    assert_eq!(parse_date_range("2025..2026..2027"), Err(DateError::InvalidRange));
    assert_eq!(parse_date_range("2025....2026"), Err(DateError::InvalidRange));
    assert_eq!(parse_date_range("2025.."), Err(DateError::EmptyDate));
    assert_eq!(parse_date_range("..2025"), Err(DateError::EmptyDate));
    assert_eq!(parse_date_range(".."), Err(DateError::EmptyDate));
    assert_eq!(parse_date_range(""), Err(DateError::EmptyDate));
    assert_eq!(parse_date_range("2025-13..2025"), Err(DateError::InvalidMonth));
    assert_eq!(parse_date_range("2025..2025-02-30"), Err(DateError::InvalidDate));
    // the start is read first
    assert_eq!(parse_date_range("20x5..2025-02-30"), Err(DateError::InvalidYear));
}

#[test]
fn test_date_to_ymd() {
    assert_eq!(ymd(2025, 5, 27).to_ymd(), "2025-05-27");
    assert_eq!(ymd(2025, 12, 1).to_ymd(), "2025-12-01");
    assert_eq!(ymd(987, 1, 2).to_ymd(), "0987-01-02");
    assert_eq!(ymd(0, 10, 10).to_ymd(), "0000-10-10");
    assert_eq!(ymd(12345, 100, 7).to_ymd(), "12345-100-07");
}

#[test]
fn test_date_is_before() {
    assert!(ymd(2024, 12, 31).is_before(&ymd(2025, 1, 1)));
    assert!(ymd(2025, 1, 31).is_before(&ymd(2025, 2, 1)));
    assert!(ymd(2025, 2, 1).is_before(&ymd(2025, 2, 2)));
    assert!(!ymd(2025, 2, 2).is_before(&ymd(2025, 2, 2)));
    assert!(!ymd(2025, 2, 2).is_before(&ymd(2025, 1, 31)));
    assert!(!ymd(2025, 1, 1).is_before(&ymd(2024, 12, 31)));
}

#[test]
fn test_parse_stamp() {
    assert_eq!(parse_stamp("2023-10-01"), Some(ymd(2023, 10, 1)));
    assert_eq!(parse_stamp("2023/10/01T12:00:00Z"), Some(ymd(2023, 10, 1)));
    assert_eq!(parse_stamp("2023x10y01"), Some(ymd(2023, 10, 1)));
    assert_eq!(parse_stamp("2023-10-1"), None);
    assert_eq!(parse_stamp("2023-1o-01"), None);
    assert_eq!(parse_stamp("20231001"), None);
    assert_eq!(parse_stamp(""), None);
}

#[test]
fn test_stamp_round_trip() {
    for d in [ymd(2023, 10, 1), ymd(1999, 12, 31), ymd(0, 1, 1), ymd(9999, 2, 28)] {
        assert_eq!(parse_stamp(&d.to_ymd()), Some(d));
    }
}
