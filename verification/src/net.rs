//! Where the crawler may go: public addresses only, the origin of the
//! submitted mapping only, and locators that are absolute or root-relative
//! without parent traversal.
use vstd::prelude::*;

use crate::catalog::has_parent_component;
use crate::text::{chars_eq, chars_of, copy_range, starts_with, starts_with_chars, string_of};

verus! {

/// An IP address as its octets or its sixteen-bit segments.
#[derive(Debug, Clone, Copy, PartialEq, Eq)]
pub enum IpAddress {
    V4([u8; 4]),
    V6([u16; 8]),
}

/// An IPv4 address that the standard library classes as private,
/// loopback, link-local, unspecified or broadcast.
pub open spec fn ipv4_special(o: Seq<u8>) -> bool {
    ||| o[0] == 10
    ||| (o[0] == 172 && 16 <= o[1] <= 31)
    ||| (o[0] == 192 && o[1] == 168)
    ||| o[0] == 127
    ||| (o[0] == 169 && o[1] == 254)
    ||| (o[0] == 0 && o[1] == 0 && o[2] == 0 && o[3] == 0)
    ||| (o[0] == 255 && o[1] == 255 && o[2] == 255 && o[3] == 255)
}

/// An IPv4 address in a reserved, shared, benchmarking, documentation or
/// multicast range.
pub open spec fn ipv4_reserved(o: Seq<u8>) -> bool {
    ||| o[0] == 0
    ||| o[0] == 10
    ||| o[0] == 127
    ||| o[0] >= 224
    ||| (o[0] == 100 && 64 <= o[1] <= 127)
    ||| (o[0] == 169 && o[1] == 254)
    ||| (o[0] == 192 && o[1] == 0 && o[2] == 0)
    ||| (o[0] == 192 && o[1] == 0 && o[2] == 2)
    ||| (o[0] == 192 && o[1] == 88 && o[2] == 99)
    ||| (o[0] == 198 && 18 <= o[1] <= 19)
    ||| (o[0] == 198 && o[1] == 51 && o[2] == 100)
    ||| (o[0] == 203 && o[1] == 0 && o[2] == 113)
}

/// A publicly routable IPv4 address.
pub open spec fn public_ipv4(o: Seq<u8>) -> bool {
    !ipv4_special(o) && !ipv4_reserved(o)
}

/// A publicly routable IPv6 address: not loopback, unspecified, unique
/// local, link-local, multicast or documentation.
pub open spec fn public_ipv6(s: Seq<u16>) -> bool {
    let loopback = s[0] == 0 && s[1] == 0 && s[2] == 0 && s[3] == 0 && s[4] == 0 && s[5] == 0
        && s[6] == 0 && s[7] == 1;
    let unspecified = s[0] == 0 && s[1] == 0 && s[2] == 0 && s[3] == 0 && s[4] == 0 && s[5] == 0
        && s[6] == 0 && s[7] == 0;
    &&& !loopback
    &&& !unspecified
    &&& (s[0] & 0xfe00u16) != 0xfc00u16
    &&& (s[0] & 0xffc0u16) != 0xfe80u16
    &&& (s[0] & 0xff00u16) != 0xff00u16
    &&& !(s[0] == 0x2001u16 && s[1] == 0x0db8u16)
}

/// A publicly routable address.
pub open spec fn public_ip(ip: IpAddress) -> bool {
    match ip {
        IpAddress::V4(o) => public_ipv4(o@),
        IpAddress::V6(s) => public_ipv6(s@),
    }
}

/// Whether an IPv4 address is publicly routable.
pub fn is_public_ipv4(o: [u8; 4]) -> (b: bool)
    ensures
        b == public_ipv4(o@),
{
    let special = o[0] == 10 || (o[0] == 172 && 16 <= o[1] && o[1] <= 31) || (o[0] == 192 && o[1]
        == 168) || o[0] == 127 || (o[0] == 169 && o[1] == 254) || (o[0] == 0 && o[1] == 0 && o[2]
        == 0 && o[3] == 0) || (o[0] == 255 && o[1] == 255 && o[2] == 255 && o[3] == 255);
    let reserved = o[0] == 0 || o[0] == 10 || o[0] == 127 || o[0] >= 224 || (o[0] == 100 && 64
        <= o[1] && o[1] <= 127) || (o[0] == 169 && o[1] == 254) || (o[0] == 192 && o[1] == 0
        && o[2] == 0) || (o[0] == 192 && o[1] == 0 && o[2] == 2) || (o[0] == 192 && o[1] == 88
        && o[2] == 99) || (o[0] == 198 && 18 <= o[1] && o[1] <= 19) || (o[0] == 198 && o[1] == 51
        && o[2] == 100) || (o[0] == 203 && o[1] == 0 && o[2] == 113);
    !special && !reserved
}

/// Whether an IPv6 address is publicly routable.
pub fn is_public_ipv6(s: [u16; 8]) -> (b: bool)
    ensures
        b == public_ipv6(s@),
{
    let loopback = s[0] == 0 && s[1] == 0 && s[2] == 0 && s[3] == 0 && s[4] == 0 && s[5] == 0
        && s[6] == 0 && s[7] == 1;
    let unspecified = s[0] == 0 && s[1] == 0 && s[2] == 0 && s[3] == 0 && s[4] == 0 && s[5] == 0
        && s[6] == 0 && s[7] == 0;
    !loopback && !unspecified && (s[0] & 0xfe00u16) != 0xfc00u16 && (s[0] & 0xffc0u16)
        != 0xfe80u16 && (s[0] & 0xff00u16) != 0xff00u16 && !(s[0] == 0x2001u16 && s[1]
        == 0x0db8u16)
}

/// Whether an address is publicly routable.
pub fn is_public_ip(ip: &IpAddress) -> (b: bool)
    ensures
        b == public_ip(*ip),
{
    match ip {
        IpAddress::V4(o) => is_public_ipv4(*o),
        IpAddress::V6(s) => is_public_ipv6(*s),
    }
}

/// What the crawler reads of a parsed URL.
#[derive(Debug, Clone, PartialEq, Eq)]
pub struct UrlParts {
    /// The serialization of the URL.
    pub text: String,
    pub scheme: String,
    /// The host as text (`Url::host_str`). Within one scheme, two hosts
    /// are equal exactly when their texts are: IPv4 hosts of special
    /// schemes are never domains and IPv6 hosts are bracketed.
    pub host_text: Option<String>,
    /// The explicit port, or the default port of a known scheme.
    pub port: Option<u16>,
    /// The user name of the URL (empty where it has none).
    pub username: String,
    /// The password of the URL.
    pub password: Option<String>,
}

/// What the crawler reads of a parsed URL, as a value of the specification.
pub struct UrlView {
    pub text: Seq<char>,
    pub scheme: Seq<char>,
    pub host_text: Option<Seq<char>>,
    pub port: Option<u16>,
    pub username: Seq<char>,
    pub password: Option<Seq<char>>,
}

impl View for UrlParts {
    type V = UrlView;

    open spec fn view(&self) -> UrlView {
        UrlView {
            text: self.text@,
            scheme: self.scheme@,
            host_text: match self.host_text {
                Some(h) => Some(h@),
                None => None,
            },
            port: self.port,
            username: self.username@,
            password: match self.password {
                Some(p) => Some(p@),
                None => None,
            },
        }
    }
}

/// The URL carries a user name or a password.
pub open spec fn carries_credentials(u: UrlView) -> bool {
    u.username.len() > 0 || u.password is Some
}

impl UrlParts {
    /// Whether the URL carries a user name or a password.
    pub fn has_credentials(&self) -> (b: bool)
        ensures
            b == carries_credentials(self@),
    {
        !self.username.as_str().is_empty() || self.password.is_some()
    }
}

#[verifier::external_type_specification]
#[verifier::external_body]
pub struct ExUrl(reqwest::Url);

/// A URL as parsed by the URL parser, with what the crawler reads of it.
#[derive(Debug)]
pub struct ParsedUrl {
    url: reqwest::Url,
    parts: UrlParts,
}

impl ParsedUrl {
    /// What the crawler reads of the URL.
    pub closed spec fn spec_parts(&self) -> UrlView {
        self.parts@
    }

    /// What the crawler reads of the URL.
    pub fn parts(&self) -> (p: &UrlParts)
        ensures
            p@ == self.spec_parts(),
    {
        &self.parts
    }

    /// The URL that the parser produced, from which the parts were read.
    pub closed spec fn spec_url(&self) -> reqwest::Url {
        self.url
    }

    /// The parsed URL itself.
    pub fn url(&self) -> (u: &reqwest::Url)
        ensures
            *u == self.spec_url(),
    {
        &self.url
    }
}

/// What the URL parser (`url::Url::parse`, through `reqwest::Url`) reads
/// from a text, or nothing where it refuses it.
pub uninterp spec fn url_parse_of(raw: Seq<char>) -> Option<UrlView>;

/// The serialization of a URL, given by its serialization `base`, once its
/// path is set to `path` and its query and fragment removed.
pub uninterp spec fn url_with_path_of(base: Seq<char>, path: Seq<char>) -> Seq<char>;

/// The parts of a URL (`Url::as_str`, `scheme`, `host_str`,
/// `port_or_known_default`, `username`, `password`), read one for one.
#[verifier::external_body]
fn url_parts(u: &reqwest::Url) -> UrlParts {
    UrlParts {
        text: u.as_str().to_owned(),
        scheme: u.scheme().to_owned(),
        host_text: u.host_str().map(|h| h.to_owned()),
        port: u.port_or_known_default(),
        username: u.username().to_owned(),
        password: u.password().map(|p| p.to_owned()),
    }
}

/// Parse a URL (`reqwest::Url::parse`). Claimed: what is read of the
/// result depends on the text alone; a refusal is reported as nothing.
#[verifier::external_body]
fn parse_url(raw: &str) -> (r: Option<ParsedUrl>)
    ensures
        match r {
            Some(u) => url_parse_of(raw@) == Some(u.spec_parts()),
            None => url_parse_of(raw@) is None,
        },
{
    reqwest::Url::parse(raw).ok().map(|url| {
        let parts = url_parts(&url);
        ParsedUrl { url, parts }
    })
}

/// The URL with its path set to `path` and its query and fragment removed
/// (`Url::set_path`, `set_query(None)`, `set_fragment(None)`). Claimed: the
/// scheme, host, port, user name and password stay as they are, and the new
/// serialization depends on the old one and the path alone (URLs are equal
/// when their serializations are).
#[verifier::external_body]
fn url_with_path(base: &ParsedUrl, path: &str) -> (r: ParsedUrl)
    ensures
        r.spec_parts().text == url_with_path_of(base.spec_parts().text, path@),
        r.spec_parts().scheme == base.spec_parts().scheme,
        r.spec_parts().host_text == base.spec_parts().host_text,
        r.spec_parts().port == base.spec_parts().port,
        r.spec_parts().username == base.spec_parts().username,
        r.spec_parts().password == base.spec_parts().password,
{
    let mut url = base.url.clone();
    url.set_path(path);
    url.set_query(None);
    url.set_fragment(None);
    let parts = url_parts(&url);
    ParsedUrl { url, parts }
}

/// Two URLs share scheme, host and port (the known default port standing
/// in where none is written).
pub open spec fn same_origin_view(a: UrlView, b: UrlView) -> bool {
    a.scheme == b.scheme && a.host_text == b.host_text && a.port == b.port
}

/// Whether two URLs share scheme, host and port.
pub fn same_origin(a: &UrlParts, b: &UrlParts) -> (r: bool)
    ensures
        r == same_origin_view(a@, b@),
{
    let same_host = match (&a.host_text, &b.host_text) {
        (None, None) => true,
        (Some(x), Some(y)) => *x == *y,
        _ => false,
    };
    a.scheme == b.scheme && same_host && a.port == b.port
}

/// Why a submitted locator is refused.
#[derive(Debug, Clone, Copy, PartialEq, Eq)]
pub enum LocatorError {
    InvalidUrl,
    ParentTraversal,
    NotAbsoluteOrRootRelative,
    CrossOrigin,
}

/// The target of a submitted locator relative to the URL it was found
/// under: a path below the same origin, or an absolute URL of that origin.
pub open spec fn locator_target(base: UrlView, locator: Seq<char>) -> Result<Seq<char>, LocatorError> {
    if has_parent_component(locator) {
        Err(LocatorError::ParentTraversal)
    } else {
        match url_parse_of(locator) {
            Some(t) => if same_origin_view(base, t) {
                Ok(t.text)
            } else {
                Err(LocatorError::CrossOrigin)
            },
            None => if starts_with(locator, seq!['.', '/']) {
                Ok(url_with_path_of(base.text, seq!['/'] + locator.skip(2)))
            } else if starts_with(locator, seq!['/']) {
                Ok(url_with_path_of(base.text, locator))
            } else {
                Err(LocatorError::NotAbsoluteOrRootRelative)
            },
        }
    }
}

/// What is read of the target of a submitted locator: the parsed URL of
/// an absolute locator on the same origin, or the base URL with its path
/// replaced for a root-relative one.
pub open spec fn locator_view(base: UrlView, locator: Seq<char>) -> Result<UrlView, LocatorError> {
    if has_parent_component(locator) {
        Err(LocatorError::ParentTraversal)
    } else {
        match url_parse_of(locator) {
            Some(t) => if same_origin_view(base, t) {
                Ok(t)
            } else {
                Err(LocatorError::CrossOrigin)
            },
            None => if starts_with(locator, seq!['.', '/']) {
                Ok(
                    UrlView {
                        text: url_with_path_of(base.text, seq!['/'] + locator.skip(2)),
                        ..base
                    },
                )
            } else if starts_with(locator, seq!['/']) {
                Ok(UrlView { text: url_with_path_of(base.text, locator), ..base })
            } else {
                Err(LocatorError::NotAbsoluteOrRootRelative)
            },
        }
    }
}

/// Resolve a webmaster-submitted locator against the URL it was found
/// under, refusing parent traversal, relative paths and other origins.
pub fn same_origin_url(base: &ParsedUrl, locator: &str) -> (r: Result<ParsedUrl, LocatorError>)
    ensures
        match r {
            Ok(t) => locator_target(base.spec_parts(), locator@) == Ok::<
                Seq<char>,
                LocatorError,
            >(t.spec_parts().text) && same_origin_view(base.spec_parts(), t.spec_parts())
                && locator_view(base.spec_parts(), locator@) == Ok::<UrlView, LocatorError>(
                t.spec_parts(),
            ),
            Err(e) => locator_target(base.spec_parts(), locator@) == Err::<
                Seq<char>,
                LocatorError,
            >(e),
        },
{
    let cs = chars_of(locator);
    if crate::catalog::parent_component(cs.as_slice()) {
        return Err(LocatorError::ParentTraversal);
    }
    match parse_url(locator) {
        Some(t) => {
            if same_origin(base.parts(), t.parts()) {
                Ok(t)
            } else {
                Err(LocatorError::CrossOrigin)
            }
        },
        None => {
            let dot_slash = ['.', '/'];
            let slash = ['/'];
            assert(dot_slash@ == seq!['.', '/']);
            assert(slash@ == seq!['/']);
            if starts_with_chars(cs.as_slice(), &dot_slash) {
                let mut path: Vec<char> = Vec::new();
                path.push('/');
                crate::text::append_chars(&mut path, copy_range(cs.as_slice(), 2, cs.len()).as_slice());
                assert(path@ =~= seq!['/'] + locator@.skip(2));
                let p = string_of(path.as_slice());
                Ok(url_with_path(base, p.as_str()))
            } else if starts_with_chars(cs.as_slice(), &slash) {
                Ok(url_with_path(base, locator))
            } else {
                Err(LocatorError::NotAbsoluteOrRootRelative)
            }
        },
    }
}

/// Why a fetch target is refused.
#[derive(Debug, Clone, Copy, PartialEq, Eq)]
pub enum TargetError {
    UnsupportedScheme,
    Credentials,
    NoHost,
    UnknownPort,
    NotResolved,
    PrivateAddress,
}

/// What checking a fetch target requires: nothing more, or a lookup of
/// its host name and port whose addresses must all be public.
#[derive(Debug, Clone, PartialEq, Eq)]
pub enum TargetCheck {
    Accepted,
    Resolve(String, u16),
}

/// The static checks of a fetch target: an `http` or `https` URL without
/// credentials, with a host, and, unless private networks are allowed, a
/// known port.
pub open spec fn target_check(u: UrlView, allow_private_networks: bool) -> Result<
    Option<(Seq<char>, u16)>,
    TargetError,
> {
    if u.scheme != seq!['h', 't', 't', 'p'] && u.scheme != seq!['h', 't', 't', 'p', 's'] {
        Err(TargetError::UnsupportedScheme)
    } else if carries_credentials(u) {
        Err(TargetError::Credentials)
    } else {
        match u.host_text {
            None => Err(TargetError::NoHost),
            Some(h) => if allow_private_networks {
                Ok(None)
            } else {
                match u.port {
                    None => Err(TargetError::UnknownPort),
                    Some(p) => Ok(Some((h, p))),
                }
            },
        }
    }
}

/// Check a fetch target before each request.
pub fn check_target(u: &UrlParts, allow_private_networks: bool) -> (r: Result<TargetCheck, TargetError>)
    ensures
        match r {
            Ok(TargetCheck::Accepted) => target_check(u@, allow_private_networks) == Ok::<
                Option<(Seq<char>, u16)>,
                TargetError,
            >(None),
            Ok(TargetCheck::Resolve(h, p)) => target_check(u@, allow_private_networks) == Ok::<
                Option<(Seq<char>, u16)>,
                TargetError,
            >(Some((h@, p))),
            Err(e) => target_check(u@, allow_private_networks) == Err::<
                Option<(Seq<char>, u16)>,
                TargetError,
            >(e),
        },
{
    let s = chars_of(u.scheme.as_str());
    let http = ['h', 't', 't', 'p'];
    let https = ['h', 't', 't', 'p', 's'];
    assert(http@ == seq!['h', 't', 't', 'p']);
    assert(https@ == seq!['h', 't', 't', 'p', 's']);
    if !chars_eq(s.as_slice(), &http) && !chars_eq(s.as_slice(), &https) {
        return Err(TargetError::UnsupportedScheme);
    }
    if u.has_credentials() {
        return Err(TargetError::Credentials);
    }
    let host = match &u.host_text {
        None => {
            return Err(TargetError::NoHost);
        },
        Some(h) => h.clone(),
    };
    if allow_private_networks {
        return Ok(TargetCheck::Accepted);
    }
    match u.port {
        None => Err(TargetError::UnknownPort),
        Some(p) => Ok(TargetCheck::Resolve(host, p)),
    }
}

/// The addresses a host name resolved to: at least one, all public.
pub open spec fn resolved_ok(addresses: Seq<IpAddress>) -> Result<(), TargetError> {
    if exists|i: int| 0 <= i < addresses.len() && !public_ip(#[trigger] addresses[i]) {
        Err(TargetError::PrivateAddress)
    } else if addresses.len() == 0 {
        Err(TargetError::NotResolved)
    } else {
        Ok(())
    }
}

/// Check the addresses a fetch target resolved to.
pub fn check_resolved(addresses: &[IpAddress]) -> (r: Result<(), TargetError>)
    ensures
        r == resolved_ok(addresses@),
{
    let mut i: usize = 0;
    while i < addresses.len()
        invariant
            0 <= i <= addresses.len(),
            forall|k: int| 0 <= k < i ==> public_ip(#[trigger] addresses@[k]),
        decreases addresses.len() - i,
    {
        if !is_public_ip(&addresses[i]) {
            return Err(TargetError::PrivateAddress);
        }
        i = i + 1;
    }
    if addresses.len() == 0 {
        return Err(TargetError::NotResolved);
    }
    Ok(())
}

/// Parse the mapping locator a webmaster submitted.
pub fn parse_mapping_locator(raw: &str) -> (r: Result<ParsedUrl, LocatorError>)
    ensures
        match r {
            Ok(u) => url_parse_of(raw@) == Some(u.spec_parts()),
            Err(e) => url_parse_of(raw@) is None && e == LocatorError::InvalidUrl,
        },
{
    match parse_url(raw) {
        Some(u) => Ok(u),
        None => Err(LocatorError::InvalidUrl),
    }
}

/// What resolving `reference` against a URL given by its serialization
/// `base` (`Url::join`) reads, or nothing where it is refused.
pub uninterp spec fn url_join_of(base: Seq<char>, reference: Seq<char>) -> Option<UrlView>;

/// Resolve a reference against a URL (`Url::join`). Claimed: what is read
/// of the result depends on the URL's serialization and the reference
/// alone; a refusal is reported as nothing.
#[verifier::external_body]
fn url_join(base: &ParsedUrl, reference: &str) -> (r: Option<ParsedUrl>)
    ensures
        match r {
            Some(u) => url_join_of(base.spec_parts().text, reference@) == Some(u.spec_parts()),
            None => url_join_of(base.spec_parts().text, reference@) is None,
        },
{
    base.url.join(reference).ok().map(|url| {
        let parts = url_parts(&url);
        ParsedUrl { url, parts }
    })
}

/// Where a redirect leads: the `Location` resolved against the current URL,
/// which must stay on the origin of the first request.
pub open spec fn redirect_of(initial: UrlView, current: UrlView, location: Seq<char>) -> Result<
    Seq<char>,
    LocatorError,
> {
    match url_join_of(current.text, location) {
        None => Err(LocatorError::InvalidUrl),
        Some(next) => if same_origin_view(initial, next) {
            Ok(next.text)
        } else {
            Err(LocatorError::CrossOrigin)
        },
    }
}

/// Follow a redirect only within the origin of the first request.
pub fn redirect_target(initial: &ParsedUrl, current: &ParsedUrl, location: &str) -> (r: Result<
    ParsedUrl,
    LocatorError,
>)
    ensures
        match r {
            Ok(next) => redirect_of(initial.spec_parts(), current.spec_parts(), location@) == Ok::<
                Seq<char>,
                LocatorError,
            >(next.spec_parts().text) && same_origin_view(initial.spec_parts(), next.spec_parts())
                && url_join_of(current.spec_parts().text, location@) == Some(next.spec_parts()),
            Err(e) => redirect_of(initial.spec_parts(), current.spec_parts(), location@) == Err::<
                Seq<char>,
                LocatorError,
            >(e),
        },
{
    match url_join(current, location) {
        None => Err(LocatorError::InvalidUrl),
        Some(next) => {
            if same_origin(initial.parts(), next.parts()) {
                Ok(next)
            } else {
                Err(LocatorError::CrossOrigin)
            }
        },
    }
}

/// Sharing an origin is an equivalence: what shares the origin of a URL
/// that shares the mapping's origin shares the mapping's origin.
pub proof fn law_same_origin_is_transitive(a: UrlView, b: UrlView, c: UrlView)
    ensures
        same_origin_view(a, a),
        same_origin_view(a, b) ==> same_origin_view(b, a),
        same_origin_view(a, b) && same_origin_view(b, c) ==> same_origin_view(a, c),
{
}

} // verus!
