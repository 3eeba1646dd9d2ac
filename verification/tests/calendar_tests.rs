use betterstack_report::date::{midnight_timestamp, parse_naive_date, utc_day};

fn reference_timestamp(y: i32, m: u32, d: u32) -> i64 {
    chrono::NaiveDate::from_ymd_opt(y, m, d).unwrap().and_hms_opt(0, 0, 0).unwrap().and_utc().timestamp()
}

#[test]
fn midnight_timestamps_agree_with_the_calendar_everywhere() {
    let years = [1, 4, 99, 100, 400, 1600, 1899, 1900, 1969, 1970, 1972, 2000, 2023, 2024, 2100, 2400, 9999];
    for y in years {
        for m in 1..=12u32 {
            for d in [1u32, 15, 28] {
                let text = format!("{:02}/{:02}/{:04}", m, d, y);
                let date = parse_naive_date(&text).unwrap();
                let ts = midnight_timestamp(&date);
                assert_eq!(ts, reference_timestamp(y, m, d), "{text}");
                assert_eq!(utc_day(ts), format!("{:04}-{:02}-{:02}", y, m, d), "{text}");
                assert_eq!(utc_day(ts + 86_399), format!("{:04}-{:02}-{:02}", y, m, d), "{text}");
            }
        }
    }
}

#[test]
fn leap_days_are_counted() {
    let leap = parse_naive_date("02/29/2000").unwrap();
    assert_eq!(midnight_timestamp(&leap), reference_timestamp(2000, 2, 29));
    assert!(parse_naive_date("02/29/1900").is_err());
    assert!(parse_naive_date("02-29-2100").is_err());
    let dec = parse_naive_date("12/31/2024").unwrap();
    let jan = parse_naive_date("01/01/2024").unwrap();
    assert_eq!(midnight_timestamp(&dec) - midnight_timestamp(&jan), 365 * 86_400);
}

#[test]
fn signed_years_far_from_today() {
    for (text, y) in [("01/01/-0044", -44), ("03/15/+12345", 12345), ("12/31/-0001", -1)] {
        if let Ok(date) = parse_naive_date(text) {
            assert_eq!(date.year(), y);
            assert_eq!(midnight_timestamp(&date), reference_timestamp(y, date.month(), date.day()), "{text}");
        }
    }
}
