use tera_statistics_analyser::text::decimal;
use tera_statistics_analyser::text::join_hyphen;
use tera_statistics_analyser::text::exceeds;
use tera_statistics_analyser::text::scan_whole;
use tera_statistics_analyser::text::parse_u32;
use tera_statistics_analyser::text::parse_u64;
use tera_statistics_analyser::text::prefix_before_dot;

#[test]
fn decimal_writes_numbers_without_leading_zeros() {
    assert_eq!(decimal(0), "0");
    assert_eq!(decimal(7), "7");
    assert_eq!(decimal(10), "10");
    assert_eq!(decimal(1542104390), "1542104390");
    assert_eq!(decimal(u64::MAX as u128), u64::MAX.to_string());
    assert_eq!(decimal(u128::MAX), u128::MAX.to_string());
}

#[test]
fn parse_u32_reads_what_std_reads() {
    for text in ["0", "7", "007", "+12", "4294967295", "4294967296", "", "+", "-1", "-0", "12a", " 1", "1 ", "99999999999999999999", "00000000000000000000001"] {
        assert_eq!(parse_u32(text), text.parse::<u32>().ok(), "{:?}", text);
    }
}

#[test]
fn parse_u64_reads_what_std_reads() {
    for text in ["0", "18446744073709551615", "18446744073709551616", "+5", "-5", "", "x"] {
        assert_eq!(parse_u64(text), text.parse::<u64>().ok(), "{:?}", text);
    }
}

#[test]
fn whole_numbers_of_any_size_are_compared_with_a_limit() {
    assert_eq!(exceeds("51", 50), Some(true));
    assert_eq!(exceeds("50", 50), Some(false));
    assert_eq!(exceeds("-51", 50), Some(false));
    assert_eq!(exceeds("+51", 50), Some(true));
    assert_eq!(exceeds("0", 0), Some(false));
    assert_eq!(exceeds("1", 0), Some(true));
    assert_eq!(exceeds("18446744073709551615", u64::MAX), Some(false));
    assert_eq!(exceeds("18446744073709551616", u64::MAX), Some(true));
    assert_eq!(exceeds("99999999999999999999999999999999999999999999", 50), Some(true));
    assert_eq!(exceeds("-99999999999999999999999999999999999999999999", 50), Some(false));
    for text in ["", "-", "+", "--1", "1-", "5.5", "x", "1 "] {
        assert_eq!(exceeds(text, 50), None, "{:?}", text);
    }
}

#[test]
fn whole_numbers_are_scanned_with_sign_and_magnitude() {
    assert_eq!(scan_whole("12", true, 50), Some((false, Some(12))));
    assert_eq!(scan_whole("-12", true, 50), Some((true, Some(12))));
    assert_eq!(scan_whole("-12", false, 50), None);
    assert_eq!(scan_whole("+050", false, 50), Some((false, Some(50))));
    assert_eq!(scan_whole("51", true, 50), Some((false, None)));
    assert_eq!(scan_whole("-510000000000000000000000000000", true, 50), Some((true, None)));
    assert_eq!(scan_whole("51x", true, 50), None);
    assert_eq!(scan_whole("5100000000000000000000000000000000000x", true, 50), None);
    assert_eq!(scan_whole("", true, 50), None);
}

#[test]
fn prefix_before_dot_takes_the_first_segment() {
    assert_eq!(prefix_before_dot("EU.2018.11"), "EU");
    assert_eq!(prefix_before_dot("EU"), "EU");
    assert_eq!(prefix_before_dot(".EU"), "");
    assert_eq!(prefix_before_dot(""), "");
    assert_eq!(prefix_before_dot("THA."), "THA");
    assert_eq!(prefix_before_dot("é.x"), "é");
}

#[test]
fn join_hyphen_puts_a_hyphen_between() {
    assert_eq!(join_hyphen("EU", "76"), "EU-76");
    assert_eq!(join_hyphen("", ""), "-");
}
