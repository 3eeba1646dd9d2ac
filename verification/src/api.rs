use vstd::prelude::*;
use vstd::string::StringExecFns;
use vstd::utf8::encode_utf8;
use crate::address::{
    Address, UrlFault, url_parse, url_path_extended, url_pair_appended, url_query_cleared, url_host, url_host_set,
    byte_len, url_room, segments_growth, pair_growth, host_growth,
};
use crate::date::{ReportWindow, utc_day, utc_day_text};
use crate::text::{decimal, decimal_text, replaced, replace_all};
use crate::text::string_views;

verus! {

#[verifier::external_type_specification]
#[verifier::external_body]
pub struct ExHeaderValue(reqwest::header::HeaderValue);

#[verifier::external_type_specification]
#[verifier::external_body]
pub struct ExInvalidHeaderValue(reqwest::header::InvalidHeaderValue);

/// The address of the BetterStack API used when none is configured.
pub const DEFAULT_API_URL: &'static str = "https://uptime.betterstack.com/api/v2";

/// Why a request could not be prepared.
#[derive(Clone, Copy, Debug, PartialEq, Eq, Structural)]
pub enum ApiError {
    /// The API token makes an `Authorization` header value that HTTP refuses.
    InvalidHeaderValue,
    /// The API address, or its host, was refused by the `url` crate.
    InvalidUrl(UrlFault),
    /// The API address cannot be a base, so no path can be added to it.
    CannotBeABase,
    /// The address could outgrow the 4 GiB that the `url` crate can hold.
    TooLong,
}

/// A byte that may stand in an HTTP header value: a visible ASCII character,
/// a space, a tab, or any byte above 127.
pub open spec fn header_byte_ok(b: u8) -> bool {
    (b >= 32 && b != 127) || b == 9
}

/// Every UTF-8 byte of the text may stand in a header value.
pub open spec fn valid_header_text(s: Seq<char>) -> bool {
    forall|i: int| 0 <= i < encode_utf8(s).len() ==> header_byte_ok(#[trigger] encode_utf8(s)[i])
}

/// What `reqwest::header::HeaderValue::from_str` builds from a text that it
/// accepts: a value holding the text's bytes.
pub uninterp spec fn header_value_of(src: Seq<char>) -> reqwest::header::HeaderValue;

/// Wraps `reqwest::header::HeaderValue::from_str`.
/// Trusted: the value is built exactly when every byte of `src` is one that
/// `http` accepts (its `is_valid`), as the crate's source shows, and it is the
/// crate's value for `src`, named by `header_value_of` (it copies the bytes of
/// `src` and marks the value not sensitive, so it depends on `src` alone).
#[verifier::external_body]
fn header_value_from_str(src: &str) -> (r: Result<reqwest::header::HeaderValue, reqwest::header::InvalidHeaderValue>)
    ensures
        r is Ok <==> valid_header_text(src@),
        r matches Ok(h) ==> h == header_value_of(src@),
{
    reqwest::header::HeaderValue::from_str(src)
}

/// Wraps `Clone::clone` of `reqwest::header::HeaderValue`.
/// Trusted: the copy is the same value as the original (the type derives
/// `Clone`, copying its bytes and its sensitivity flag).
#[verifier::external_body]
fn copy_header_value(v: &reqwest::header::HeaderValue) -> (r: reqwest::header::HeaderValue)
    ensures
        r == *v,
{
    v.clone()
}

/// The `Authorization` header text for an API token.
pub open spec fn bearer(api_key: Seq<char>) -> Seq<char> {
    "Bearer "@ + api_key
}

/// The text of a prepared address, or the error.
pub open spec fn address_text(r: Result<String, ApiError>) -> Result<Seq<char>, ApiError> {
    match r {
        Ok(s) => Ok(s@),
        Err(e) => Err(e),
    }
}

/// Adding path segments: refused as too long when the bound on what they
/// add leaves no room, else as the `url` crate does it.
pub open spec fn segments_step(u: Seq<char>, segments: Seq<Seq<char>>) -> Result<Seq<char>, ApiError> {
    if !url_room(byte_len(u) + segments_growth(segments)) {
        Err(ApiError::TooLong)
    } else {
        match url_path_extended(u, segments) {
            None => Err(ApiError::CannotBeABase),
            Some(t) => Ok(t),
        }
    }
}

/// Adding a query pair: refused as too long when the bound on what it adds
/// leaves no room, else as the `url` crate does it.
pub open spec fn pair_step(u: Seq<char>, name: Seq<char>, value: Seq<char>) -> Result<Seq<char>, ApiError> {
    if !url_room(byte_len(u) + pair_growth(name, value)) {
        Err(ApiError::TooLong)
    } else {
        Ok(url_pair_appended(u, name, value))
    }
}

/// Clearing the query: refused as too long when there is no room for a `?`,
/// else as the `url` crate does it.
pub open spec fn clear_step(u: Seq<char>) -> Result<Seq<char>, ApiError> {
    if !url_room(byte_len(u) + 1) {
        Err(ApiError::TooLong)
    } else {
        Ok(url_query_cleared(u))
    }
}

/// Setting the host: refused as too long when the bound on what it adds
/// leaves no room, else as the `url` crate does it.
pub open spec fn host_step(u: Seq<char>, host: Seq<char>) -> Result<Seq<char>, ApiError> {
    if !url_room(byte_len(u) + host_growth(host)) {
        Err(ApiError::TooLong)
    } else {
        match url_host_set(u, host) {
            Err(f) => Err(ApiError::InvalidUrl(f)),
            Ok(t) => Ok(t),
        }
    }
}

/// The address of page `page` of the monitor listing.
pub open spec fn monitors_address(api_uri: Seq<char>, page: nat) -> Result<Seq<char>, ApiError> {
    match url_parse(api_uri) {
        Err(f) => Err(ApiError::InvalidUrl(f)),
        Ok(base) => match segments_step(base, seq!["monitors"@]) {
            Err(e) => Err(e),
            Ok(u) => pair_step(u, "page"@, decimal(page)),
        },
    }
}

/// The address of a monitor's SLA report for the days of `from_ts` and
/// `to_ts`.
pub open spec fn sla_address(api_uri: Seq<char>, monitor_id: Seq<char>, from_ts: int, to_ts: int) -> Result<Seq<char>, ApiError> {
    match url_parse(api_uri) {
        Err(f) => Err(ApiError::InvalidUrl(f)),
        Ok(base) => match segments_step(base, seq!["monitors"@, monitor_id, "sla"@]) {
            Err(e) => Err(e),
            Ok(u) => match pair_step(u, "from"@, utc_day_text(from_ts)) {
                Err(e) => Err(e),
                Ok(v) => pair_step(v, "to"@, utc_day_text(to_ts)),
            },
        },
    }
}

/// The host of the status-page API: the API's host with
/// `uptime.betterstack.com` replaced by `betteruptime.com`.
pub open spec fn status_host(base: Seq<char>) -> Seq<char> {
    replaced(
        match url_host(base) {
            Some(h) => h,
            None => Seq::empty(),
        },
        "uptime.betterstack.com"@,
        "betteruptime.com"@,
    )
}

/// The address of the status-page listing.
pub open spec fn status_pages_address(api_uri: Seq<char>) -> Result<Seq<char>, ApiError> {
    match url_parse(api_uri) {
        Err(f) => Err(ApiError::InvalidUrl(f)),
        Ok(base) => match host_step(base, status_host(base)) {
            Err(e) => Err(e),
            Ok(moved) => segments_step(moved, seq!["status-pages"@]),
        },
    }
}

/// The address of page `page` of a status page's resources: the first page
/// is asked for and then the query is cleared and set to the page wanted.
pub open spec fn resources_address(api_uri: Seq<char>, status_page_id: Seq<char>, page: nat) -> Result<Seq<char>, ApiError> {
    match url_parse(api_uri) {
        Err(f) => Err(ApiError::InvalidUrl(f)),
        Ok(base) => match segments_step(base, seq!["status-pages"@, status_page_id, "resources"@]) {
            Err(e) => Err(e),
            Ok(u) => match pair_step(u, "page"@, "1"@) {
                Err(e) => Err(e),
                Ok(v) => match clear_step(v) {
                    Err(e) => Err(e),
                    Ok(w) => pair_step(w, "page"@, decimal(page)),
                },
            },
        },
    }
}

/// Adds path segments, when there is room.
fn add_segments(url: &mut Address, segments: &Vec<String>) -> (r: Result<(), ApiError>)
    ensures
        match segments_step(old(url)@, string_views(segments@)) {
            Ok(t) => r is Ok && final(url)@ == t,
            Err(e) => r == Err::<(), ApiError>(e),
        },
{
    if !url.room_for_segments(segments) {
        return Err(ApiError::TooLong);
    }
    if !url.extend_path(segments) {
        return Err(ApiError::CannotBeABase);
    }
    Ok(())
}

/// Adds a query pair, when there is room.
fn add_pair(url: &mut Address, name: &str, value: &str) -> (r: Result<(), ApiError>)
    ensures
        match pair_step(old(url)@, name@, value@) {
            Ok(t) => r is Ok && final(url)@ == t,
            Err(e) => r == Err::<(), ApiError>(e),
        },
{
    if !url.room_for_pair(name, value) {
        return Err(ApiError::TooLong);
    }
    url.append_query_pair(name, value);
    Ok(())
}

/// Clears the query, when there is room.
fn clear_pairs(url: &mut Address) -> (r: Result<(), ApiError>)
    ensures
        match clear_step(old(url)@) {
            Ok(t) => r is Ok && final(url)@ == t,
            Err(e) => r == Err::<(), ApiError>(e),
        },
{
    if !url.room_for_clear() {
        return Err(ApiError::TooLong);
    }
    url.clear_query();
    Ok(())
}

/// Sets the host, when there is room.
fn move_host(url: &mut Address, host: &str) -> (r: Result<(), ApiError>)
    ensures
        match host_step(old(url)@, host@) {
            Ok(t) => r is Ok && final(url)@ == t,
            Err(e) => r == Err::<(), ApiError>(e),
        },
{
    if !url.room_for_host(host) {
        return Err(ApiError::TooLong);
    }
    match url.set_host(host) {
        Ok(()) => Ok(()),
        Err(f) => Err(ApiError::InvalidUrl(f)),
    }
}

/// The parsed API address, or the error.
fn parse_api_address(api_uri: &String) -> (r: Result<Address, ApiError>)
    ensures
        match url_parse(api_uri@) {
            Ok(t) => r matches Ok(a) && a@ == t,
            Err(f) => r == Err::<Address, ApiError>(ApiError::InvalidUrl(f)),
        },
{
    match Address::parse(api_uri.as_str()) {
        Ok(a) => Ok(a),
        Err(f) => Err(ApiError::InvalidUrl(f)),
    }
}

/// The BetterStack API: its address and the `Authorization` header that
/// authenticates the requests.
pub struct BetterStackApi {
    api_uri: String,
    authorization: String,
    header: reqwest::header::HeaderValue,
}

/// The API as the contracts see it.
pub struct ApiView {
    /// Base address of the API.
    pub api_uri: Seq<char>,
    /// The text of the `Authorization` header.
    pub authorization: Seq<char>,
    /// The `Authorization` header value, built from that text.
    pub header: reqwest::header::HeaderValue,
}

impl View for BetterStackApi {
    type V = ApiView;

    closed spec fn view(&self) -> ApiView {
        ApiView { api_uri: self.api_uri@, authorization: self.authorization@, header: self.header }
    }
}

impl BetterStackApi {
    /// Prepares the API at `api_uri` with the token `api_key`; fails exactly
    /// when the header text `Bearer <api_key>` is not a valid header value.
    pub fn new(api_key: &str, api_uri: &str) -> (r: Result<Self, ApiError>)
        ensures
            r is Ok <==> valid_header_text(bearer(api_key@)),
            match r {
                Ok(api) => api@.api_uri == api_uri@ && api@.authorization == bearer(api_key@) && api@.header
                    == header_value_of(bearer(api_key@)),
                Err(e) => e == ApiError::InvalidHeaderValue,
            },
    {
        let mut authorization = String::from_str("Bearer ");
        authorization.append(api_key);
        match header_value_from_str(authorization.as_str()) {
            Ok(header) => Ok(BetterStackApi { api_uri: String::from_str(api_uri), authorization, header }),
            Err(_) => Err(ApiError::InvalidHeaderValue),
        }
    }

    /// The text of the `Authorization` header.
    pub fn authorization(&self) -> (r: String)
        ensures
            r@ == self@.authorization,
    {
        self.authorization.clone()
    }

    /// The `Authorization` header value, for the HTTP client: a copy of the
    /// value that `new` built from the header text.
    pub fn authorization_header(&self) -> (r: reqwest::header::HeaderValue)
        ensures
            r == self@.header,
    {
        copy_header_value(&self.header)
    }

    /// The address of page `page` of the monitor listing.
    pub fn monitors_url(&self, page: u32) -> (r: Result<String, ApiError>)
        ensures
            address_text(r) == monitors_address(self@.api_uri, page as nat),
    {
        let mut url = match parse_api_address(&self.api_uri) {
            Ok(a) => a,
            Err(e) => return Err(e),
        };
        let segments = vec![String::from_str("monitors")];
        assert(string_views(segments@) =~= seq!["monitors"@]);
        if let Err(e) = add_segments(&mut url, &segments) {
            return Err(e);
        }
        let page_text = decimal_text(page as u64);
        if let Err(e) = add_pair(&mut url, "page", page_text.as_str()) {
            return Err(e);
        }
        Ok(url.as_string())
    }

    /// The address of the SLA report of monitor `monitor_id` over `window`.
    pub fn monitor_sla_url(&self, monitor_id: &str, window: &ReportWindow) -> (r: Result<String, ApiError>)
        requires
            window.wf(),
        ensures
            address_text(r) == sla_address(self@.api_uri, monitor_id@, window.from_ts as int, window.to_ts as int),
    {
        let mut url = match parse_api_address(&self.api_uri) {
            Ok(a) => a,
            Err(e) => return Err(e),
        };
        let segments = vec![String::from_str("monitors"), String::from_str(monitor_id), String::from_str("sla")];
        assert(string_views(segments@) =~= seq!["monitors"@, monitor_id@, "sla"@]);
        if let Err(e) = add_segments(&mut url, &segments) {
            return Err(e);
        }
        let from_day = utc_day(window.from_ts);
        let to_day = utc_day(window.to_ts);
        if let Err(e) = add_pair(&mut url, "from", from_day.as_str()) {
            return Err(e);
        }
        if let Err(e) = add_pair(&mut url, "to", to_day.as_str()) {
            return Err(e);
        }
        Ok(url.as_string())
    }

    /// The address of the status-page listing, on the status-page host.
    pub fn status_pages_url(&self) -> (r: Result<String, ApiError>)
        ensures
            address_text(r) == status_pages_address(self@.api_uri),
    {
        let mut url = match parse_api_address(&self.api_uri) {
            Ok(a) => a,
            Err(e) => return Err(e),
        };
        let host = match url.host() {
            Some(h) => h,
            None => String::new(),
        };
        let moved = replace_all(host.as_str(), "uptime.betterstack.com", "betteruptime.com");
        if let Err(e) = move_host(&mut url, moved.as_str()) {
            return Err(e);
        }
        let segments = vec![String::from_str("status-pages")];
        assert(string_views(segments@) =~= seq!["status-pages"@]);
        if let Err(e) = add_segments(&mut url, &segments) {
            return Err(e);
        }
        Ok(url.as_string())
    }

    /// The address of page `page` of the resources of status page
    /// `status_page_id`.
    pub fn status_page_resources_url(&self, status_page_id: &str, page: u32) -> (r: Result<String, ApiError>)
        ensures
            address_text(r) == resources_address(self@.api_uri, status_page_id@, page as nat),
    {
        let mut url = match parse_api_address(&self.api_uri) {
            Ok(a) => a,
            Err(e) => return Err(e),
        };
        let segments = vec![
            String::from_str("status-pages"),
            String::from_str(status_page_id),
            String::from_str("resources"),
        ];
        assert(string_views(segments@) =~= seq!["status-pages"@, status_page_id@, "resources"@]);
        if let Err(e) = add_segments(&mut url, &segments) {
            return Err(e);
        }
        if let Err(e) = add_pair(&mut url, "page", "1") {
            return Err(e);
        }
        if let Err(e) = clear_pairs(&mut url) {
            return Err(e);
        }
        let page_text = decimal_text(page as u64);
        if let Err(e) = add_pair(&mut url, "page", page_text.as_str()) {
            return Err(e);
        }
        Ok(url.as_string())
    }
}

} // verus!
