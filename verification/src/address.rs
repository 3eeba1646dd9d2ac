use vstd::prelude::*;
use vstd::utf8::encode_utf8;
use crate::text::string_views;

verus! {

#[verifier::external_type_specification]
#[verifier::external_body]
pub struct ExUrl(url::Url);

/// Declared with its variants visible, so that verified code can tell the
/// kinds of error apart; the enum has no fields.
#[verifier::external_type_specification]
pub struct ExUrlParseError(url::ParseError);

/// Why the `url` crate refused to parse an address or set its host.
#[derive(Clone, Copy, Debug, PartialEq, Eq, Structural)]
pub enum UrlFault {
    EmptyHost,
    IdnaError,
    InvalidPort,
    InvalidIpv4Address,
    InvalidIpv6Address,
    InvalidDomainCharacter,
    RelativeUrlWithoutBase,
    RelativeUrlWithCannotBeABaseBase,
    SetHostOnCannotBeABaseUrl,
    Overflow,
    /// A kind of error that this library does not know by name.
    Other,
}

/// What `url::Url::parse` makes of a text: the serialization of the address,
/// or the kind of error.
pub uninterp spec fn url_parse(input: Seq<char>) -> Result<Seq<char>, UrlFault>;

/// What `PathSegmentsMut::extend` makes of an address: the serialization
/// with the segments appended to its path, or `None` when the address
/// cannot be a base (`path_segments_mut` refuses it).
pub uninterp spec fn url_path_extended(url: Seq<char>, segments: Seq<Seq<char>>) -> Option<Seq<char>>;

/// What `form_urlencoded::Serializer::append_pair`, applied to the query of an
/// address, makes of it.
pub uninterp spec fn url_pair_appended(url: Seq<char>, name: Seq<char>, value: Seq<char>) -> Seq<char>;

/// What `form_urlencoded::Serializer::clear`, applied to the query of an
/// address, makes of it.
pub uninterp spec fn url_query_cleared(url: Seq<char>) -> Seq<char>;

/// What `url::Url::host_str` returns for an address.
pub uninterp spec fn url_host(url: Seq<char>) -> Option<Seq<char>>;

/// What `url::Url::set_host` with `Some(host)` makes of an address: the new
/// serialization, or the kind of error (the address is then unchanged).
pub uninterp spec fn url_host_set(url: Seq<char>, host: Seq<char>) -> Result<Seq<char>, UrlFault>;

/// The number of UTF-8 bytes of a text.
pub open spec fn byte_len(s: Seq<char>) -> int {
    encode_utf8(s).len() as int
}

/// The most bytes that the `url` crate lets a serialization reach: it keeps
/// offsets as `u32` and panics past them.
pub open spec fn url_room(len: int) -> bool {
    len <= u32::MAX
}

/// A bound on the bytes that `PathSegmentsMut::extend` adds for the given
/// segments: a slash and at most three bytes (a percent-encoding) for each
/// byte of each segment.
pub open spec fn segments_growth(segments: Seq<Seq<char>>) -> int
    decreases segments.len(),
{
    if segments.len() == 0 {
        0
    } else {
        segments_growth(segments.drop_last()) + 3 * byte_len(segments.last()) + 1
    }
}

/// A bound on the bytes that `append_pair` adds: at most three for each byte
/// of the name and of the value, one separator (`?` or `&`) and the `=`.
pub open spec fn pair_growth(name: Seq<char>, value: Seq<char>) -> int {
    3 * (byte_len(name) + byte_len(value)) + 2
}

/// A bound on the bytes that `set_host` adds: the new host's serialization
/// (after percent-decoding, IDNA mapping and Punycode, or as an IP address)
/// and a possible `//` take fewer than 1024 bytes for each byte of the given
/// host text, plus 1024.
pub open spec fn host_growth(host: Seq<char>) -> int {
    1024 * (byte_len(host) + 1)
}

/// The bound on added bytes is never negative and only grows with more
/// segments.
proof fn lemma_segments_growth_grows(segments: Seq<Seq<char>>, k: int)
    requires
        0 <= k <= segments.len(),
    ensures
        0 <= segments_growth(segments.take(k)) <= segments_growth(segments),
    decreases segments.len(),
{
    if segments.len() > 0 {
        if k < segments.len() {
            assert(segments.drop_last().take(k) =~= segments.take(k));
            lemma_segments_growth_grows(segments.drop_last(), k);
        } else {
            assert(segments.take(k) =~= segments);
            assert(segments.drop_last().take(k - 1) =~= segments.drop_last());
            lemma_segments_growth_grows(segments.drop_last(), k - 1);
        }
    } else {
        assert(segments.take(k) =~= segments);
    }
}

/// A parsed web address together with its serialization. Every `Address`
/// comes from `parse` and the operations below, which keep the two in step.
#[derive(Debug)]
pub struct Address {
    url: url::Url,
    text: String,
}

impl View for Address {
    type V = Seq<char>;

    /// The serialization of the address.
    closed spec fn view(&self) -> Seq<char> {
        self.text@
    }
}

/// The kind of an error of the `url` crate.
pub open spec fn fault_kind(e: url::ParseError) -> UrlFault {
    match e {
        url::ParseError::EmptyHost => UrlFault::EmptyHost,
        url::ParseError::IdnaError => UrlFault::IdnaError,
        url::ParseError::InvalidPort => UrlFault::InvalidPort,
        url::ParseError::InvalidIpv4Address => UrlFault::InvalidIpv4Address,
        url::ParseError::InvalidIpv6Address => UrlFault::InvalidIpv6Address,
        url::ParseError::InvalidDomainCharacter => UrlFault::InvalidDomainCharacter,
        url::ParseError::RelativeUrlWithoutBase => UrlFault::RelativeUrlWithoutBase,
        url::ParseError::RelativeUrlWithCannotBeABaseBase => UrlFault::RelativeUrlWithCannotBeABaseBase,
        url::ParseError::SetHostOnCannotBeABaseUrl => UrlFault::SetHostOnCannotBeABaseUrl,
        url::ParseError::Overflow => UrlFault::Overflow,
        _ => UrlFault::Other,
    }
}

/// The kind of an error of the `url` crate.
pub fn url_fault(e: url::ParseError) -> (r: UrlFault)
    ensures
        r == fault_kind(e),
{
    match e {
        url::ParseError::EmptyHost => UrlFault::EmptyHost,
        url::ParseError::IdnaError => UrlFault::IdnaError,
        url::ParseError::InvalidPort => UrlFault::InvalidPort,
        url::ParseError::InvalidIpv4Address => UrlFault::InvalidIpv4Address,
        url::ParseError::InvalidIpv6Address => UrlFault::InvalidIpv6Address,
        url::ParseError::InvalidDomainCharacter => UrlFault::InvalidDomainCharacter,
        url::ParseError::RelativeUrlWithoutBase => UrlFault::RelativeUrlWithoutBase,
        url::ParseError::RelativeUrlWithCannotBeABaseBase => UrlFault::RelativeUrlWithCannotBeABaseBase,
        url::ParseError::SetHostOnCannotBeABaseUrl => UrlFault::SetHostOnCannotBeABaseUrl,
        url::ParseError::Overflow => UrlFault::Overflow,
        _ => UrlFault::Other,
    }
}

/// Wraps `url::Url::parse`.
/// Trusted: the result is the crate's parse of `input`, named by `url_parse`;
/// the serialization kept beside the address is `Url::as_str`.
#[verifier::external_body]
fn parse_url(input: &str) -> (r: Result<Address, url::ParseError>)
    ensures
        match r {
            Ok(a) => url_parse(input@) == Ok::<Seq<char>, UrlFault>(a@),
            Err(e) => url_parse(input@) == Err::<Seq<char>, UrlFault>(fault_kind(e)),
        },
{
    url::Url::parse(input).map(|url| Address { text: url.as_str().to_string(), url })
}

/// Wraps `url::Url::set_host` with `Some(host)`.
/// Trusted: the result is the crate's, named by `url_host_set`; on an error
/// the address is unchanged. The crate panics when the serialization
/// outgrows `u32`, which `requires` rules out.
#[verifier::external_body]
fn set_url_host(a: &mut Address, host: &str) -> (r: Result<(), url::ParseError>)
    requires
        url_room(byte_len(old(a)@) + host_growth(host@)),
    ensures
        match url_host_set(old(a)@, host@) {
            Ok(t) => r is Ok && final(a)@ == t,
            Err(f) => (r matches Err(e) && fault_kind(e) == f) && final(a)@ == old(a)@,
        },
{
    let r = a.url.set_host(Some(host));
    a.text = a.url.as_str().to_string();
    r
}

impl Address {
    /// Parses an address as the `url` crate does.
    pub fn parse(input: &str) -> (r: Result<Address, UrlFault>)
        ensures
            match r {
                Ok(a) => url_parse(input@) == Ok::<Seq<char>, UrlFault>(a@),
                Err(f) => url_parse(input@) == Err::<Seq<char>, UrlFault>(f),
            },
    {
        match parse_url(input) {
            Ok(a) => Ok(a),
            Err(e) => Err(url_fault(e)),
        }
    }

    /// Wraps `url::Url::path_segments_mut` followed by
    /// `PathSegmentsMut::extend`.
    /// Trusted: when the address can be a base the segments are appended as
    /// the crate does it, named by `url_path_extended`, and `true` comes
    /// back; otherwise the address is unchanged and `false` comes back. The
    /// crate panics when the serialization outgrows `u32`, which `requires`
    /// rules out.
    #[verifier::external_body]
    pub(crate) fn extend_path(&mut self, segments: &Vec<String>) -> (r: bool)
        requires
            url_room(byte_len(old(self)@) + segments_growth(string_views(segments@))),
        ensures
            r == (url_path_extended(old(self)@, string_views(segments@)) is Some),
            r ==> final(self)@ == url_path_extended(old(self)@, string_views(segments@))->0,
            !r ==> final(self)@ == old(self)@,
    {
        let ok = match self.url.path_segments_mut() {
            Ok(mut path) => {
                path.extend(segments.iter());
                true
            },
            Err(()) => false,
        };
        self.text = self.url.as_str().to_string();
        ok
    }

    /// Wraps `form_urlencoded::Serializer::append_pair` on
    /// `url::Url::query_pairs_mut`.
    /// Trusted: the pair is appended to the query as the crate does it, named
    /// by `url_pair_appended`. The crate panics when the serialization
    /// outgrows `u32`, which `requires` rules out.
    #[verifier::external_body]
    pub(crate) fn append_query_pair(&mut self, name: &str, value: &str)
        requires
            url_room(byte_len(old(self)@) + pair_growth(name@, value@)),
        ensures
            final(self)@ == url_pair_appended(old(self)@, name@, value@),
    {
        self.url.query_pairs_mut().append_pair(name, value);
        self.text = self.url.as_str().to_string();
    }

    /// Wraps `form_urlencoded::Serializer::clear` on
    /// `url::Url::query_pairs_mut`.
    /// Trusted: the query is emptied as the crate does it, named by
    /// `url_query_cleared`. A `?` may be added first; `requires` keeps that
    /// within `u32`.
    #[verifier::external_body]
    pub(crate) fn clear_query(&mut self)
        requires
            url_room(byte_len(old(self)@) + 1),
        ensures
            final(self)@ == url_query_cleared(old(self)@),
    {
        self.url.query_pairs_mut().clear();
        self.text = self.url.as_str().to_string();
    }

    /// Wraps `url::Url::host_str`.
    /// Trusted: the result is the crate's host of the address, named by
    /// `url_host`.
    #[verifier::external_body]
    pub(crate) fn host(&self) -> (r: Option<String>)
        ensures
            match r {
                Some(h) => url_host(self@) == Some(h@),
                None => url_host(self@) is None,
            },
    {
        self.url.host_str().map(|h| h.to_string())
    }

    /// Sets the host of the address as the `url` crate does; on an error
    /// the address is unchanged.
    pub fn set_host(&mut self, host: &str) -> (r: Result<(), UrlFault>)
        requires
            url_room(byte_len(old(self)@) + host_growth(host@)),
        ensures
            match url_host_set(old(self)@, host@) {
                Ok(t) => r is Ok && final(self)@ == t,
                Err(f) => r == Err::<(), UrlFault>(f) && final(self)@ == old(self)@,
            },
    {
        match set_url_host(self, host) {
            Ok(()) => Ok(()),
            Err(e) => Err(url_fault(e)),
        }
    }

    /// The number of bytes of the serialization.
    pub fn byte_length(&self) -> (r: usize)
        ensures
            r == byte_len(self@),
    {
        self.text.as_str().as_bytes().len()
    }

    /// Whether the segments can be added within the room that the `url`
    /// crate allows.
    pub fn room_for_segments(&self, segments: &Vec<String>) -> (r: bool)
        ensures
            r == url_room(byte_len(self@) + segments_growth(string_views(segments@))),
    {
        let limit: u64 = 0xFFFF_FFFF;
        let len = self.byte_length() as u64;
        proof {
            lemma_segments_growth_grows(string_views(segments@), 0);
            assert(segments@.take(0) =~= Seq::<String>::empty());
            assert(string_views(segments@.take(0)) =~= Seq::<Seq<char>>::empty());
        }
        if len > limit {
            return false;
        }
        let mut total: u64 = len;
        let mut i: usize = 0;
        while i < segments.len()
            invariant
                i <= segments@.len(),
                limit == 0xFFFF_FFFF,
                total <= limit,
                total == byte_len(self@) + segments_growth(string_views(segments@.take(i as int))),
            decreases segments.len() - i,
        {
            proof {
                assert(string_views(segments@.take(i + 1)).drop_last() =~= string_views(segments@.take(i as int)));
                assert(string_views(segments@.take(i + 1)).last() == segments@[i as int]@);
                assert(string_views(segments@.take(i + 1)) =~= string_views(segments@).take(i + 1));
                lemma_segments_growth_grows(string_views(segments@), i + 1);
            }
            let b = segments[i].as_str().as_bytes().len() as u64;
            if b > limit {
                return false;
            }
            let next = total + 3 * b + 1;
            if next > limit {
                return false;
            }
            total = next;
            i = i + 1;
        }
        proof {
            assert(segments@.take(segments@.len() as int) =~= segments@);
        }
        true
    }

    /// Whether the pair can be added to the query within the room that the
    /// `url` crate allows.
    pub fn room_for_pair(&self, name: &str, value: &str) -> (r: bool)
        ensures
            r == url_room(byte_len(self@) + pair_growth(name@, value@)),
    {
        let limit: u64 = 0xFFFF_FFFF;
        let len = self.byte_length() as u64;
        let n = name.as_bytes().len() as u64;
        let v = value.as_bytes().len() as u64;
        if len > limit || n > limit || v > limit {
            return false;
        }
        len + 3 * (n + v) + 2 <= limit
    }

    /// Whether the query can be cleared within the room that the `url` crate
    /// allows.
    pub fn room_for_clear(&self) -> (r: bool)
        ensures
            r == url_room(byte_len(self@) + 1),
    {
        let len = self.byte_length() as u64;
        len < 0xFFFF_FFFF
    }

    /// Whether the host can be set within the room that the `url` crate
    /// allows.
    pub fn room_for_host(&self, host: &str) -> (r: bool)
        ensures
            r == url_room(byte_len(self@) + host_growth(host@)),
    {
        let limit: u64 = 0xFFFF_FFFF;
        let len = self.byte_length() as u64;
        let h = host.as_bytes().len() as u64;
        if len > limit || h > limit {
            return false;
        }
        len + 1024 * (h + 1) <= limit
    }

    /// The serialization of the address.
    pub fn as_string(&self) -> (r: String)
        ensures
            r@ == self@,
    {
        self.text.clone()
    }
}

} // verus!
