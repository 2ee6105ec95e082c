//! Site ownership for the console: canonical registrable domains, the
//! stateless verification token, and the DNS challenge derived from them.
use vstd::prelude::*;

use vstd::utf8::encode_utf8;

use crate::document::{hex_text, sha256_digest, sha256_of};
use crate::text::{chars_of, copy_range, has_char, starts_with, starts_with_chars, string_of, trim, trim_end_char};

verus! {

/// What `str::to_lowercase` returns for a text.
pub uninterp spec fn lowercase_of(s: Seq<char>) -> Seq<char>;

/// What `idna::domain_to_ascii` returns for a text: the ASCII (Punycode)
/// form, or nothing where the name is refused.
pub uninterp spec fn idna_ascii_of(s: Seq<char>) -> Option<Seq<char>>;

/// What the public suffix list (`psl::List::suffix`) finds as the public
/// suffix of a domain name.
pub uninterp spec fn public_suffix_of(name: Seq<u8>) -> Option<Seq<u8>>;

/// `str::to_lowercase`. Claimed: the result depends on the text alone.
#[verifier::external_body]
fn lowercase(s: &str) -> (r: String)
    ensures
        r@ == lowercase_of(s@),
{
    s.to_lowercase()
}

/// The characters of `a` are ASCII, with no upper-case letter.
pub open spec fn ascii_lower(a: Seq<char>) -> bool {
    forall|i: int| 0 <= i < a.len() ==> (#[trigger] a[i] as u32) < 128 && !('A' <= a[i] <= 'Z')
}

/// `idna::domain_to_ascii`. Claimed: the result depends on the text alone;
/// an error is reported as nothing; a result is the ASCII form of the name,
/// with upper case mapped to lower case, as the function's documentation
/// states.
#[verifier::external_body]
fn domain_to_ascii(s: &str) -> (r: Option<String>)
    ensures
        match r {
            Some(a) => idna_ascii_of(s@) == Some(a@) && ascii_lower(a@),
            None => idna_ascii_of(s@) is None,
        },
{
    match idna::domain_to_ascii(s) {
        Ok(a) => Some(a),
        Err(_) => None,
    }
}

/// The public suffix of a domain name (`psl::List::suffix`, through the
/// `psl::Psl` trait), as its bytes. Claimed: the result depends on the name
/// alone.
#[verifier::external_body]
fn public_suffix(name: &[u8]) -> (r: Option<Vec<u8>>)
    ensures
        match r {
            Some(b) => public_suffix_of(name@) == Some(b@),
            None => public_suffix_of(name@) is None,
        },
{
    <psl::List as psl::Psl>::suffix(&psl::List, name).map(|s| s.as_bytes().to_vec())
}

/// `hex::encode`: two lower-case hexadecimal digits per byte.
#[verifier::external_body]
fn hex_encode(bytes: &[u8]) -> (r: String)
    ensures
        r@ == hex_text(bytes@),
{
    hex::encode(bytes)
}

/// Why a submitted domain is refused.
#[derive(Debug, Clone, Copy, PartialEq, Eq)]
pub enum DomainError {
    InsecureScheme,
    NotBareDomain,
    Empty,
    InvalidIdn,
    TooLong,
    InvalidSyntax,
    UnknownSuffix,
    PublicSuffix,
}

impl DomainError {
    /// The message shown to the user.
    pub fn message(&self) -> (m: &'static str)
        ensures
            m@ == match *self {
                DomainError::InsecureScheme => "Only HTTPS domains are allowed"@,
                DomainError::NotBareDomain => "Subdirectories, paths, ports, and query parameters are not allowed; please provide a bare domain or subdomain"@,
                DomainError::Empty => "Domain cannot be empty"@,
                DomainError::InvalidIdn => "Invalid internationalized domain name (IDN)"@,
                DomainError::TooLong => "Domain name exceeds maximum allowed length of 236 characters"@,
                DomainError::InvalidSyntax => "Invalid domain syntax"@,
                DomainError::UnknownSuffix => "Unknown or invalid public suffix (TLD)"@,
                DomainError::PublicSuffix => "Cannot register a public suffix (eTLD) directly; must be an eTLD+1 or subdomain"@,
            },
    {
        match self {
            DomainError::InsecureScheme => "Only HTTPS domains are allowed",
            DomainError::NotBareDomain => "Subdirectories, paths, ports, and query parameters are not allowed; please provide a bare domain or subdomain",
            DomainError::Empty => "Domain cannot be empty",
            DomainError::InvalidIdn => "Invalid internationalized domain name (IDN)",
            DomainError::TooLong => "Domain name exceeds maximum allowed length of 236 characters",
            DomainError::InvalidSyntax => "Invalid domain syntax",
            DomainError::UnknownSuffix => "Unknown or invalid public suffix (TLD)",
            DomainError::PublicSuffix => "Cannot register a public suffix (eTLD) directly; must be an eTLD+1 or subdomain",
        }
    }
}

/// `http://`.
pub open spec fn http_prefix() -> Seq<char> {
    seq!['h', 't', 't', 'p', ':', '/', '/']
}

/// `https://`.
pub open spec fn https_prefix() -> Seq<char> {
    seq!['h', 't', 't', 'p', 's', ':', '/', '/']
}

/// The longest accepted ASCII domain: `_fetch-challenge.` and the domain
/// stay within the 253 characters of a DNS name.
pub const MAX_DOMAIN_LEN: usize = 236;

/// The host part of a submitted domain: trimmed, without an `https://`
/// prefix and without trailing slashes.
pub open spec fn bare_host(input: Seq<char>) -> Seq<char> {
    let t = trim(input);
    let rest = if starts_with(t, https_prefix()) {
        t.skip(8)
    } else {
        t
    };
    trim_end_char(rest, '/')
}

/// What `canonicalize_and_validate_domain` returns.
pub open spec fn canonical_domain(input: Seq<char>) -> Result<Seq<char>, DomainError> {
    let t = trim(input);
    let host = bare_host(input);
    if starts_with(t, http_prefix()) {
        Err(DomainError::InsecureScheme)
    } else if has_char(host, '/') || has_char(host, ':') || has_char(host, '?') || has_char(
        host,
        '#',
    ) {
        Err(DomainError::NotBareDomain)
    } else if lowercase_of(host).len() == 0 {
        Err(DomainError::Empty)
    } else {
        match idna_ascii_of(lowercase_of(host)) {
            None => Err(DomainError::InvalidIdn),
            Some(a) => if encode_utf8(a).len() > MAX_DOMAIN_LEN {
                Err(DomainError::TooLong)
            } else if !has_char(a, '.') || a[0] == '.' || a.last() == '.' {
                Err(DomainError::InvalidSyntax)
            } else {
                match public_suffix_of(encode_utf8(a)) {
                    None => Err(DomainError::UnknownSuffix),
                    Some(s) => if encode_utf8(a) == s {
                        Err(DomainError::PublicSuffix)
                    } else {
                        Ok(a)
                    },
                }
            },
        }
    }
}

/// An accepted domain is a dotted name that neither starts nor ends with
/// a dot, at most 236 bytes long, with a known public suffix that it is
/// not itself, and it was not submitted over plain HTTP. Nothing more is
/// stated of it here: that accepting it again gives it back rests on the
/// IDNA conversion, whose result is named, not described. That it is
/// lower-case ASCII is stated by `canonicalize_and_validate_domain`.
pub proof fn law_canonical_domain_shape(input: Seq<char>)
    ensures
        canonical_domain(input) matches Ok(d) ==> {
            &&& d.len() > 0
            &&& has_char(d, '.')
            &&& d[0] != '.'
            &&& d.last() != '.'
            &&& encode_utf8(d).len() <= MAX_DOMAIN_LEN
            &&& public_suffix_of(encode_utf8(d)) matches Some(s) && s != encode_utf8(d)
            &&& !starts_with(trim(input), http_prefix())
        },
{
}

fn holds(s: &[char], c: char) -> (b: bool)
    ensures
        b == has_char(s@, c),
{
    crate::text::contains_char(s, c)
}

/// Strictly normalize and validate a submitted domain: HTTPS only, a bare
/// host without path, port, query or fragment, converted to ASCII
/// (Punycode), at most 236 bytes, with a known public suffix that it is not
/// itself.
pub fn canonicalize_and_validate_domain(input: &str) -> (res: Result<String, DomainError>)
    ensures
        match res {
            Ok(d) => canonical_domain(input@) == Ok::<Seq<char>, DomainError>(d@),
            Err(e) => canonical_domain(input@) == Err::<Seq<char>, DomainError>(e),
        },
        res matches Ok(d) ==> ascii_lower(d@),
{
    let cs = chars_of(input);
    let t = crate::text::trimmed(cs.as_slice());
    let http = ['h', 't', 't', 'p', ':', '/', '/'];
    let https = ['h', 't', 't', 'p', 's', ':', '/', '/'];
    assert(http@ == http_prefix());
    assert(https@ == https_prefix());
    if starts_with_chars(t.as_slice(), &http) {
        return Err(DomainError::InsecureScheme);
    }
    let rest = if starts_with_chars(t.as_slice(), &https) {
        copy_range(t.as_slice(), 8, t.len())
    } else {
        copy_range(t.as_slice(), 0, t.len())
    };
    assert(t@.subrange(0, t@.len() as int) == t@);
    assert(t@.subrange(8, t@.len() as int) == t@.skip(8) || !starts_with(t@, https_prefix()));
    let mut end = rest.len();
    while end > 0 && rest[end - 1] == '/'
        invariant
            0 <= end <= rest.len(),
            forall|j: int| end <= j < rest@.len() ==> #[trigger] rest@[j] == '/',
        decreases end,
    {
        end = end - 1;
    }
    proof {
        crate::text::lemma_trim_end_char_take(rest@, '/', end as int);
        assert(rest@.take(end as int) == rest@.subrange(0, end as int));
    }
    let host = copy_range(rest.as_slice(), 0, end);
    assert(host@ == bare_host(input@));
    if holds(host.as_slice(), '/') || holds(host.as_slice(), ':') || holds(host.as_slice(), '?') || holds(
        host.as_slice(),
        '#',
    ) {
        return Err(DomainError::NotBareDomain);
    }
    let host_text = string_of(host.as_slice());
    let lower = lowercase(host_text.as_str());
    if lower.as_str().is_empty() {
        return Err(DomainError::Empty);
    }
    let ascii = match domain_to_ascii(lower.as_str()) {
        Some(a) => a,
        None => {
            return Err(DomainError::InvalidIdn);
        },
    };
    let bytes = ascii.as_str().as_bytes();
    if bytes.len() > MAX_DOMAIN_LEN {
        return Err(DomainError::TooLong);
    }
    let ac = chars_of(ascii.as_str());
    if !holds(ac.as_slice(), '.') || ac[0] == '.' || ac[ac.len() - 1] == '.' {
        return Err(DomainError::InvalidSyntax);
    }
    let suffix = match public_suffix(bytes) {
        Some(s) => s,
        None => {
            return Err(DomainError::UnknownSuffix);
        },
    };
    if same_bytes(bytes, suffix.as_slice()) {
        return Err(DomainError::PublicSuffix);
    }
    Ok(ascii)
}

fn same_bytes(a: &[u8], b: &[u8]) -> (r: bool)
    ensures
        r == (a@ == b@),
{
    if a.len() != b.len() {
        return false;
    }
    let mut i: usize = 0;
    while i < a.len()
        invariant
            0 <= i <= a.len(),
            a.len() == b.len(),
            forall|j: int| 0 <= j < i ==> a@[j] == b@[j],
        decreases a.len() - i,
    {
        if a[i] != b[i] {
            return false;
        }
        i = i + 1;
    }
    assert(a@ =~= b@);
    true
}

/// The verification token of a user's domain: the first sixteen bytes of
/// the SHA-256 digest of `user_id:domain:salt`, in lower-case hexadecimal.
pub open spec fn verification_token_of(user_id: Seq<char>, domain: Seq<char>, salt: Seq<char>) -> Seq<
    char,
> {
    hex_text(
        sha256_of(encode_utf8(user_id + seq![':'] + domain + seq![':'] + salt)).take(16),
    )
}

/// Derive the stateless 32-character DNS / file verification token.
pub fn derive_verification_token(user_id: &str, domain: &str, salt: &str) -> (r: String)
    ensures
        r@ == verification_token_of(user_id@, domain@, salt@),
        r@.len() == 32,
{
    let mut input: Vec<char> = chars_of(user_id);
    input.push(':');
    crate::text::append_chars(&mut input, chars_of(domain).as_slice());
    input.push(':');
    crate::text::append_chars(&mut input, chars_of(salt).as_slice());
    let text = string_of(input.as_slice());
    assert(text@ =~= user_id@ + seq![':'] + domain@ + seq![':'] + salt@);
    let digest = sha256_digest(text.as_str().as_bytes());
    let head = copy_bytes(digest.as_slice(), 16);
    let r = hex_encode(head.as_slice());
    proof {
        lemma_hex_text_len(head@);
    }
    r
}

fn copy_bytes(b: &[u8], n: usize) -> (r: Vec<u8>)
    requires
        n <= b.len(),
    ensures
        r@ == b@.take(n as int),
{
    let mut r: Vec<u8> = Vec::new();
    let mut i: usize = 0;
    while i < n
        invariant
            0 <= i <= n <= b.len(),
            r@ == b@.take(i as int),
        decreases n - i,
    {
        r.push(b[i]);
        assert(b@.take(i + 1) == b@.take(i as int).push(b@[i as int]));
        i = i + 1;
    }
    r
}

proof fn lemma_hex_text_len(b: Seq<u8>)
    ensures
        hex_text(b).len() == 2 * b.len(),
    decreases b.len(),
{
    if b.len() > 0 {
        lemma_hex_text_len(b.drop_last());
    }
}

/// `_fetch-challenge.`, the label under which a domain publishes its token.
pub open spec fn challenge_label() -> Seq<char> {
    seq!['_', 'f', 'e', 't', 'c', 'h', '-', 'c', 'h', 'a', 'l', 'l', 'e', 'n', 'g', 'e', '.']
}

/// The host whose TXT records carry a domain's verification token.
pub fn challenge_host(domain: &str) -> (r: String)
    ensures
        r@ == challenge_label() + domain@,
{
    let mut out: Vec<char> = Vec::new();
    let label = [
        '_', 'f', 'e', 't', 'c', 'h', '-', 'c', 'h', 'a', 'l', 'l', 'e', 'n', 'g', 'e', '.',
    ];
    crate::text::append_chars(&mut out, &label);
    crate::text::append_chars(&mut out, chars_of(domain).as_slice());
    assert(label@ == challenge_label());
    string_of(out.as_slice())
}

/// `fetch-verification=`, the prefix of the TXT record value shown when a
/// domain is added.
pub open spec fn record_value_prefix() -> Seq<char> {
    seq![
        'f', 'e', 't', 'c', 'h', '-', 'v', 'e', 'r', 'i', 'f', 'i', 'c', 'a', 't', 'i', 'o', 'n',
        '=',
    ]
}

/// The TXT record value shown when a domain is added.
pub fn challenge_record_value(token: &str) -> (r: String)
    ensures
        r@ == record_value_prefix() + token@,
{
    let mut out: Vec<char> = Vec::new();
    let prefix = [
        'f', 'e', 't', 'c', 'h', '-', 'v', 'e', 'r', 'i', 'f', 'i', 'c', 'a', 't', 'i', 'o', 'n',
        '=',
    ];
    crate::text::append_chars(&mut out, &prefix);
    crate::text::append_chars(&mut out, chars_of(token).as_slice());
    assert(prefix@ == record_value_prefix());
    string_of(out.as_slice())
}

/// The fully qualified form of a host name: with a trailing dot, so that
/// no local search domain applies.
pub open spec fn fqdn_of(host: Seq<char>) -> Seq<char> {
    if host.len() > 0 && host.last() == '.' {
        host
    } else {
        host.push('.')
    }
}

/// The fully qualified form of a host name.
pub fn fqdn(host: &str) -> (r: String)
    ensures
        r@ == fqdn_of(host@),
{
    let mut cs = chars_of(host);
    if cs.len() > 0 && cs[cs.len() - 1] == '.' {
        string_of(cs.as_slice())
    } else {
        cs.push('.');
        string_of(cs.as_slice())
    }
}

/// `hay` holds `needle` as a contiguous part.
fn contains_at_most(hay: &[char], needle: &[char]) -> (r: bool)
    ensures
        r == crate::text::contains_seq(hay@, needle@),
{
    if needle.len() > hay.len() {
        proof {
            if crate::text::contains_seq(hay@, needle@) {
                let i = choose|i: int|
                    0 <= i && i + needle@.len() <= hay@.len() && #[trigger] hay@.subrange(
                        i,
                        i + needle@.len(),
                    ) == needle@;
            }
        }
        return false;
    }
    if needle.len() == 0 {
        assert(hay@.subrange(0, 0 + needle@.len() as int) =~= needle@);
        return true;
    }
    let mut i: usize = 0;
    while i <= hay.len() - needle.len()
        invariant
            1 <= needle.len() <= hay.len(),
            0 <= i <= hay.len() - needle.len() + 1,
            forall|k: int|
                0 <= k < i ==> #[trigger] hay@.subrange(k, k + needle@.len()) != needle@,
        decreases hay.len() - i,
    {
        let part = copy_range(hay, i, i + needle.len());
        if crate::text::chars_eq(part.as_slice(), needle) {
            return true;
        }
        i = i + 1;
    }
    proof {
        if crate::text::contains_seq(hay@, needle@) {
            let k = choose|k: int|
                0 <= k && k + needle@.len() <= hay@.len() && #[trigger] hay@.subrange(
                    k,
                    k + needle@.len(),
                ) == needle@;
            assert(k < i);
        }
    }
    false
}

/// One of the TXT records holds the expected content.
pub open spec fn any_record_contains(records: Seq<Seq<char>>, expected: Seq<char>) -> bool {
    exists|i: int| 0 <= i < records.len() && crate::text::contains_seq(#[trigger] records[i], expected)
}

/// A TXT record at any position that holds the expected text shows it,
/// and the records show it only where one of them holds it.
pub proof fn law_any_record_shows_the_token(records: Seq<Seq<char>>, expected: Seq<char>, i: int)
    ensures
        0 <= i < records.len() && crate::text::contains_seq(records[i], expected)
            ==> any_record_contains(records, expected),
        any_record_contains(records, expected) ==> exists|j: int|
            0 <= j < records.len() && crate::text::contains_seq(#[trigger] records[j], expected),
{
}

/// Whether the records show the expected text does not depend on their
/// order or on repeated records: records with the same set of texts agree.
pub proof fn law_record_order_is_irrelevant(
    records: Seq<Seq<char>>,
    others: Seq<Seq<char>>,
    expected: Seq<char>,
)
    requires
        records.to_set() == others.to_set(),
    ensures
        any_record_contains(records, expected) == any_record_contains(others, expected),
{
    broadcast use vstd::seq_lib::group_seq_properties;

    if any_record_contains(records, expected) {
        let i = choose|i: int|
            0 <= i < records.len() && crate::text::contains_seq(#[trigger] records[i], expected);
        assert(records.to_set().contains(records[i]));
        assert(others.contains(records[i]));
        let j = choose|j: int| 0 <= j < others.len() && others[j] == records[i];
        assert(crate::text::contains_seq(others[j], expected));
    }
    if any_record_contains(others, expected) {
        let i = choose|i: int|
            0 <= i < others.len() && crate::text::contains_seq(#[trigger] others[i], expected);
        assert(others.to_set().contains(others[i]));
        assert(records.contains(others[i]));
        let j = choose|j: int| 0 <= j < records.len() && records[j] == others[i];
        assert(crate::text::contains_seq(records[j], expected));
    }
}

/// Whether one of the TXT records holds the expected content.
pub fn records_contain(records: &[String], expected: &str) -> (r: bool)
    ensures
        r == any_record_contains(crate::pattern::strings_view(records@), expected@),
{
    let needle = chars_of(expected);
    let ghost rs = crate::pattern::strings_view(records@);
    let mut i: usize = 0;
    while i < records.len()
        invariant
            0 <= i <= records.len(),
            needle@ == expected@,
            rs == crate::pattern::strings_view(records@),
            forall|k: int| 0 <= k < i ==> !crate::text::contains_seq(#[trigger] rs[k], expected@),
        decreases records.len() - i,
    {
        let hay = chars_of(records[i].as_str());
        if contains_at_most(hay.as_slice(), needle.as_slice()) {
            assert(rs[i as int] == records@[i as int]@);
            return true;
        }
        i = i + 1;
    }
    false
}

/// Whether a well-known challenge file holds exactly the token, around
/// white space.
pub fn file_token_matches(body: &str, token: &str) -> (r: bool)
    ensures
        r == (trim(body@) == token@),
{
    let t = crate::text::trimmed(chars_of(body).as_slice());
    crate::text::chars_eq(t.as_slice(), chars_of(token).as_slice())
}

/// The verification state of a registered domain.
#[derive(Debug, Clone, Copy, PartialEq, Eq)]
pub enum DomainStatus {
    Pending,
    Verified,
    Failed,
}

/// The status text of a domain.
pub open spec fn status_text_of(status: DomainStatus) -> Seq<char> {
    match status {
        DomainStatus::Pending => seq!['p', 'e', 'n', 'd', 'i', 'n', 'g'],
        DomainStatus::Verified => seq!['v', 'e', 'r', 'i', 'f', 'i', 'e', 'd'],
        DomainStatus::Failed => seq!['f', 'a', 'i', 'l', 'e', 'd'],
    }
}

/// The status text shown for a domain.
pub fn status_text(status: &DomainStatus) -> (r: &'static str)
    ensures
        r@ == status_text_of(*status),
{
    proof {
        reveal_strlit("pending");
        reveal_strlit("verified");
        reveal_strlit("failed");
    }
    match status {
        DomainStatus::Pending => "pending",
        DomainStatus::Verified => "verified",
        DomainStatus::Failed => "failed",
    }
}

} // verus!
