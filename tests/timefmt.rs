use stack_sync::timefmt::{days_to_ymd, format_timestamp};

#[test]
fn commands_test_format_timestamp_zero() {
    assert_eq!(format_timestamp(0), "n/a");
}

#[test]
fn commands_test_format_timestamp_epoch() {
    assert_eq!(format_timestamp(0), "n/a");
}

#[test]
fn commands_test_format_timestamp_known_date() {
    let result = format_timestamp(1587405600);
    assert_eq!(result, "2020-04-20 18:00 UTC");
}

#[test]
fn commands_test_format_timestamp_another_date() {
    let result = format_timestamp(1704067200);
    assert_eq!(result, "2024-01-01 00:00 UTC");
}

#[test]
fn commands_test_days_to_ymd_epoch() {
    assert_eq!(days_to_ymd(0), (1970, 1, 1));
}

#[test]
fn commands_test_days_to_ymd_known_date() {
    assert_eq!(days_to_ymd(18372), (2020, 4, 20));
}

#[test]
fn commands_test_days_to_ymd_leap_year() {
    assert_eq!(days_to_ymd(11016), (2000, 2, 29));
}

#[test]
fn view_test_format_timestamp_zero() {
    assert_eq!(format_timestamp(0), "n/a");
}

#[test]
fn view_test_format_timestamp_epoch() {
    assert_eq!(format_timestamp(0), "n/a");
}

#[test]
fn view_test_format_timestamp_known_date() {
    let result = format_timestamp(1587405600);
    assert_eq!(result, "2020-04-20 18:00 UTC");
}

#[test]
fn view_test_format_timestamp_another_date() {
    let result = format_timestamp(1704067200);
    assert_eq!(result, "2024-01-01 00:00 UTC");
}

#[test]
fn view_test_days_to_ymd_epoch() {
    assert_eq!(days_to_ymd(0), (1970, 1, 1));
}

#[test]
fn view_test_days_to_ymd_known_date() {
    assert_eq!(days_to_ymd(18372), (2020, 4, 20));
}

#[test]
fn view_test_days_to_ymd_leap_year() {
    assert_eq!(days_to_ymd(11016), (2000, 2, 29));
}

#[test]
fn days_to_ymd_end_of_year_and_century() {
    assert_eq!(days_to_ymd(364), (1970, 12, 31));
    assert_eq!(days_to_ymd(10956), (1999, 12, 31));
    assert_eq!(days_to_ymd(11017), (2000, 3, 1));
    assert_eq!(days_to_ymd(47540), (2100, 2, 28));
    assert_eq!(days_to_ymd(47541), (2100, 3, 1));
}

#[test]
fn format_timestamp_one_second_and_padding() {
    assert_eq!(format_timestamp(1), "1970-01-01 00:00 UTC");
    assert_eq!(format_timestamp(3723), "1970-01-01 01:02 UTC");
    assert_eq!(format_timestamp(951782399), "2000-02-28 23:59 UTC");
}

#[test]
fn format_timestamp_far_year_keeps_all_digits() {
    // 10000-01-01 00:00 UTC
    assert_eq!(format_timestamp(253402300800), "10000-01-01 00:00 UTC");
}

#[test]
fn format_timestamp_largest_value() {
    assert_eq!(format_timestamp(u64::MAX), "584554051223-11-09 07:00 UTC");
}
