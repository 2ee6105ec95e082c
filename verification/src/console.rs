//! The console's configuration and the shapes it exchanges, with the
//! domain records it shows.
use vstd::prelude::*;

use crate::domain::{
    DomainStatus, challenge_host, challenge_label, challenge_record_value, record_value_prefix,
    status_text, status_text_of,
};
use crate::domain::file_token_matches;
use crate::model::{parse_u64, u64_text_value};
use crate::text::trim;
use crate::value::push_str;

verus! {

/// Application configuration loaded from the environment.
#[derive(Debug, Clone)]
pub struct AppConfig {
    pub database_url: String,
    pub jwt_key: String,
    pub jwt_issuer: String,
    pub jwt_audience: String,
    pub port: u16,
    /// The search engine service (e.g. `http://127.0.0.1:3000`).
    pub engine_url: String,
    /// The salt of domain verification tokens.
    pub verification_salt: String,
}

/// The port a text names, as `str::parse::<u16>` reads it: decimal digits
/// after an optional `+`, with a value that fits.
pub open spec fn port_value(s: Seq<char>) -> Option<u16> {
    match u64_text_value(s) {
        Some(v) => if v <= u16::MAX {
            Some(v as u16)
        } else {
            None
        },
        None => None,
    }
}

/// Read the console's listening port; nothing where the text is not one.
pub fn parse_port(text: &str) -> (r: Option<u16>)
    ensures
        r == port_value(text@),
{
    match parse_u64(text) {
        Some(v) => if v <= 65535 {
            Some(v as u16)
        } else {
            None
        },
        None => None,
    }
}

/// Request payload for OAuth authorization code exchange.
#[derive(Debug, Clone)]
pub struct OAuthCallbackDto {
    pub code: String,
    pub state: Option<String>,
}

/// Sanitized user profile object.
#[derive(Debug, Clone)]
pub struct UserInfoDto {
    pub id: String,
    pub username: String,
    pub nickname: String,
    pub avatar: Option<String>,
}

/// Authentication response containing the session token and user profile.
#[derive(Debug, Clone)]
pub struct AuthResponseDto {
    pub token: String,
    pub user: UserInfoDto,
}

/// Request to add a site.
#[derive(Debug, Clone)]
pub struct AddDomainDto {
    pub domain: String,
}

/// A site with its DNS verification instructions.
#[derive(Debug, Clone)]
pub struct DomainDto {
    pub domain: String,
    pub status: String,
    pub verification_token: String,
    pub dns_record_name: String,
    pub dns_record_value: String,
    pub created_at: String,
    pub verified_at: Option<String>,
}

/// The result of a DNS verification.
#[derive(Debug, Clone)]
pub struct VerifyDomainResultDto {
    pub domain: String,
    pub verified: bool,
    pub message: String,
}

/// The record shown for a domain just added: pending, with the TXT record
/// `fetch-verification=<token>` under `_fetch-challenge.<domain>`.
pub fn added_domain(domain: &str, token: &str, created_at: String) -> (d: DomainDto)
    ensures
        d.domain@ == domain@,
        d.status@ == seq!['p', 'e', 'n', 'd', 'i', 'n', 'g'],
        d.verification_token@ == token@,
        d.dns_record_name@ == challenge_label() + domain@,
        d.dns_record_value@ == record_value_prefix() + token@,
        d.created_at == created_at,
        d.verified_at is None,
{
    let status = status_text(&DomainStatus::Pending).to_owned();
    DomainDto {
        domain: domain.to_owned(),
        status,
        verification_token: token.to_owned(),
        dns_record_name: challenge_host(domain),
        dns_record_value: challenge_record_value(token),
        created_at,
        verified_at: None,
    }
}

/// The record shown for a listed domain: its status, and the bare token as
/// the value of the TXT record under `_fetch-challenge.<domain>`.
pub fn listed_domain(
    domain: &str,
    status: &DomainStatus,
    token: &str,
    created_at: String,
    verified_at: Option<String>,
) -> (d: DomainDto)
    ensures
        d.domain@ == domain@,
        d.status@ == status_text_of(*status),
        d.verification_token@ == token@,
        d.dns_record_name@ == challenge_label() + domain@,
        d.dns_record_value@ == token@,
        d.created_at == created_at,
        d.verified_at == verified_at,
{
    DomainDto {
        domain: domain.to_owned(),
        status: status_text(status).to_owned(),
        verification_token: token.to_owned(),
        dns_record_name: challenge_host(domain),
        dns_record_value: token.to_owned(),
        created_at,
        verified_at,
    }
}

/// The address of a domain's well-known challenge file.
pub fn challenge_file_url(domain: &str) -> (r: String)
    ensures
        r@ == "https://"@ + domain@ + "/.well-known/fetch-challenge.txt"@,
{
    let mut out = String::new();
    push_str(&mut out, "https://");
    push_str(&mut out, domain);
    push_str(&mut out, "/.well-known/fetch-challenge.txt");
    out
}

/// The answer to a verification of `domain`, whose expected token is
/// `token` under the challenge host `host`: verified when the TXT record or
/// the challenge file matched; else a message that names what was looked
/// for and where.
pub fn verification_result(domain: String, token: &str, host: &str, matched: bool) -> (r:
    VerifyDomainResultDto)
    ensures
        r.domain == domain,
        r.verified == matched,
        matched ==> r.message@
            == "Domain ownership verified successfully via DNS or well-known file!"@,
        !matched ==> r.message@ == "Verification failed: DNS TXT record matching '"@ + token@
            + "' not found on '"@ + host@ + "', and https://"@ + domain@
            + "/.well-known/fetch-challenge.txt is unreachable."@,
{
    let mut message = String::new();
    if matched {
        push_str(&mut message, "Domain ownership verified successfully via DNS or well-known file!");
    } else {
        push_str(&mut message, "Verification failed: DNS TXT record matching '");
        push_str(&mut message, token);
        push_str(&mut message, "' not found on '");
        push_str(&mut message, host);
        push_str(&mut message, "', and https://");
        push_str(&mut message, domain.as_str());
        push_str(&mut message, "/.well-known/fetch-challenge.txt is unreachable.");
    }
    VerifyDomainResultDto { domain, verified: matched, message }
}

/// Whether a domain's ownership is shown: by a TXT record holding the
/// token, or else by the challenge file, fetched only then, holding
/// exactly the token around white space.
pub fn ownership_shown(dns_matched: bool, file_body: Option<&str>, token: &str) -> (r: bool)
    ensures
        r == (dns_matched || (file_body matches Some(b) && trim(b@) == token@)),
{
    if dns_matched {
        return true;
    }
    match file_body {
        Some(b) => file_token_matches(b, token),
        None => false,
    }
}

} // verus!
