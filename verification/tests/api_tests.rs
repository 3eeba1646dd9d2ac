use betterstack_report::address::{Address, UrlFault};
use betterstack_report::api::{ApiError, BetterStackApi, DEFAULT_API_URL};
use betterstack_report::date::{midnight_timestamp, parse_naive_date, reporting_window, utc_day, ReportWindow, YEAR_SECONDS};

fn api(uri: &str) -> BetterStackApi {
    BetterStackApi::new("secret-token", uri).unwrap()
}

#[test]
fn api_builds_bearer_header() {
    let a = api(DEFAULT_API_URL);
    assert_eq!(a.authorization(), "Bearer secret-token");
    assert_eq!(a.authorization_header().to_str().unwrap(), "Bearer secret-token");
}

#[test]
fn api_refuses_token_with_control_characters() {
    assert!(matches!(BetterStackApi::new("bad\ntoken", DEFAULT_API_URL), Err(ApiError::InvalidHeaderValue)));
    assert!(matches!(BetterStackApi::new("bad\u{7f}", DEFAULT_API_URL), Err(ApiError::InvalidHeaderValue)));
    assert!(BetterStackApi::new("tab\tand é", DEFAULT_API_URL).is_ok());
}

#[test]
fn monitor_listing_addresses() {
    let a = api(DEFAULT_API_URL);
    assert_eq!(a.monitors_url(1).unwrap(), "https://uptime.betterstack.com/api/v2/monitors?page=1");
    assert_eq!(a.monitors_url(12).unwrap(), "https://uptime.betterstack.com/api/v2/monitors?page=12");
    let q = api("https://example.com/api?token=x");
    assert_eq!(q.monitors_url(2).unwrap(), "https://example.com/api/monitors?token=x&page=2");
}

#[test]
fn sla_address_carries_the_days_of_the_window() {
    let a = api(DEFAULT_API_URL);
    let window = ReportWindow { from_ts: 1_704_067_200, to_ts: 1_735_603_200 };
    assert_eq!(
        a.monitor_sla_url("123", &window).unwrap(),
        "https://uptime.betterstack.com/api/v2/monitors/123/sla?from=2024-01-01&to=2024-12-31"
    );
    assert_eq!(
        a.monitor_sla_url("a b/c", &window).unwrap(),
        "https://uptime.betterstack.com/api/v2/monitors/a%20b%2Fc/sla?from=2024-01-01&to=2024-12-31"
    );
}

#[test]
fn status_pages_move_to_the_legacy_host() {
    assert_eq!(api(DEFAULT_API_URL).status_pages_url().unwrap(), "https://betteruptime.com/api/v2/status-pages");
    assert_eq!(api("https://example.com/v2").status_pages_url().unwrap(), "https://example.com/v2/status-pages");
}

#[test]
fn status_page_resource_addresses() {
    let a = api(DEFAULT_API_URL);
    assert_eq!(
        a.status_page_resources_url("42", 1).unwrap(),
        "https://uptime.betterstack.com/api/v2/status-pages/42/resources?page=1"
    );
    assert_eq!(
        a.status_page_resources_url("42", 3).unwrap(),
        "https://uptime.betterstack.com/api/v2/status-pages/42/resources?page=3"
    );
    let q = api("https://example.com/api?token=x");
    assert_eq!(q.status_page_resources_url("7", 2).unwrap(), "https://example.com/api/status-pages/7/resources?page=2");
}

#[test]
fn bad_api_addresses_are_reported() {
    assert_eq!(api("not a url").monitors_url(1), Err(ApiError::InvalidUrl(UrlFault::RelativeUrlWithoutBase)));
    assert_eq!(api("mailto:ops@example.com").monitors_url(1), Err(ApiError::CannotBeABase));
    assert_eq!(
        api("mailto:ops@example.com").status_pages_url(),
        Err(ApiError::InvalidUrl(UrlFault::SetHostOnCannotBeABaseUrl))
    );
    assert_eq!(api("http://[::1").monitors_url(1), Err(ApiError::InvalidUrl(UrlFault::InvalidIpv6Address)));
}

#[test]
fn addresses_parse_as_the_url_crate_does() {
    let a = Address::parse("https://Example.com/a/").unwrap();
    assert_eq!(a.as_string(), "https://example.com/a/");
    assert_eq!(Address::parse("relative/path").unwrap_err(), UrlFault::RelativeUrlWithoutBase);
    assert_eq!(Address::parse("http://example.com:99999").unwrap_err(), UrlFault::InvalidPort);
    let b = api("https://example.com/a/");
    assert_eq!(b.monitor_sla_url("..", &ReportWindow { from_ts: 0, to_ts: 0 }).unwrap(), "https://example.com/a//monitors/sla?from=1970-01-01&to=1970-01-01");
}

#[test]
fn dates_parse_with_slashes_or_dashes() {
    let d = parse_naive_date("01/31/2024").unwrap();
    assert_eq!((d.year(), d.month(), d.day()), (2024, 1, 31));
    let d = parse_naive_date("12-31-2024").unwrap();
    assert_eq!((d.year(), d.month(), d.day()), (2024, 12, 31));
    let d = parse_naive_date("2/29/2024").unwrap();
    assert_eq!((d.year(), d.month(), d.day()), (2024, 2, 29));
}

#[test]
fn bad_dates_report_the_second_format_error() {
    for input in ["2024-01-31", "02/30/2024", "13-01-2024", "", "01/31/2024x"] {
        let expected = chrono::NaiveDate::parse_from_str(input, "%m-%d-%Y").unwrap_err().to_string();
        assert_eq!(parse_naive_date(input).unwrap_err(), expected, "{input}");
    }
}

#[test]
fn midnight_timestamps_count_seconds_from_epoch() {
    let d = parse_naive_date("05/15/2015").unwrap();
    assert_eq!(midnight_timestamp(&d), 1_431_648_000);
    assert_eq!(midnight_timestamp(&parse_naive_date("01/01/1970").unwrap()), 0);
    assert_eq!(midnight_timestamp(&parse_naive_date("12/31/1969").unwrap()), -86_400);
    assert_eq!(midnight_timestamp(&parse_naive_date("03/01/2000").unwrap()), 951_868_800);
}

#[test]
fn utc_day_writes_iso_dates() {
    assert_eq!(utc_day(1_431_648_000), "2015-05-15");
    assert_eq!(utc_day(1_431_648_000 + 86_399), "2015-05-15");
    assert_eq!(utc_day(-1), "1969-12-31");
}

#[test]
fn window_from_dates_or_last_year() {
    let s = parse_naive_date("01/01/2024").unwrap();
    let e = parse_naive_date("12/31/2024").unwrap();
    let w = reporting_window(Some(s), Some(e), 0);
    assert_eq!((w.from_ts, w.to_ts), (1_704_067_200, 1_735_603_200));
    let w = reporting_window(Some(s), None, 1_735_603_200);
    assert_eq!((w.from_ts, w.to_ts), (1_735_603_200 - YEAR_SECONDS, 1_735_603_200));
    let w = reporting_window(None, None, 1_000_000_000);
    assert_eq!(w.to_ts - w.from_ts, 31_536_000);
}

#[test]
fn room_checks_measure_bytes() {
    let a = Address::parse("https://example.com/").unwrap();
    assert_eq!(a.byte_length(), 20);
    assert!(a.room_for_pair("page", "1"));
    assert!(a.room_for_clear());
    assert!(a.room_for_host("betteruptime.com"));
    assert!(a.room_for_segments(&vec!["monitors".to_string(), "é".to_string()]));
    assert!(!a.room_for_host(&"h".repeat(4_200_000)));
}
