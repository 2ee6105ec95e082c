//! The console's session cookies: which cookies a sign-in and a refresh
//! set, with their lifetimes and attributes.
use vstd::prelude::*;

use crate::value::push_str;

verus! {

/// The lifetime of an access token and of its cookie: thirty minutes.
pub const ACCESS_TOKEN_SECONDS: i64 = 1800;

/// The lifetime of a refresh token and of the session cookies: seven days.
pub const REFRESH_TOKEN_SECONDS: i64 = 604800;

/// A cookie of the session, set on the whole site (`Path=/`) and sent with
/// top-level navigations only (`SameSite=Lax`).
#[derive(Debug, Clone, PartialEq, Eq)]
pub struct SessionCookie {
    pub name: String,
    pub value: String,
    pub max_age_seconds: i64,
    pub http_only: bool,
    /// Sent over HTTPS only: set in release builds.
    pub secure: bool,
    pub path: String,
    pub same_site_lax: bool,
}

/// Build a session cookie.
pub fn make_cookie(name: &str, value: String, max_age_seconds: i64, http_only: bool, secure: bool) -> (c:
    SessionCookie)
    ensures
        c.name@ == name@,
        c.value == value,
        c.max_age_seconds == max_age_seconds,
        c.http_only == http_only,
        c.secure == secure,
        c.path@ == "/"@,
        c.same_site_lax,
{
    let mut n = String::new();
    push_str(&mut n, name);
    let mut path = String::new();
    push_str(&mut path, "/");
    SessionCookie {
        name: n,
        value,
        max_age_seconds,
        http_only,
        secure,
        path,
        same_site_lax: true,
    }
}

/// The cookie that carries an access token: `access_token`, hidden from
/// scripts, for the token's lifetime.
pub fn access_cookie(token: String, secure: bool) -> (c: SessionCookie)
    ensures
        c.name@ == "access_token"@,
        c.value == token,
        c.max_age_seconds == ACCESS_TOKEN_SECONDS,
        c.http_only,
        c.secure == secure,
        c.path@ == "/"@,
        c.same_site_lax,
{
    make_cookie("access_token", token, ACCESS_TOKEN_SECONDS, true, secure)
}

/// The cookies a sign-in sets: the access token, the refresh token (hidden
/// from scripts, for seven days) and `session_payload = true`, readable by
/// scripts, for seven days.
pub fn sign_in_cookies(access_token: String, refresh_token: String, secure: bool) -> (v: Vec<
    SessionCookie,
>)
    ensures
        v@.len() == 3,
        v@[0].name@ == "access_token"@,
        v@[0].value == access_token,
        v@[0].max_age_seconds == ACCESS_TOKEN_SECONDS,
        v@[0].http_only,
        v@[1].name@ == "refresh_token"@,
        v@[1].value == refresh_token,
        v@[1].max_age_seconds == REFRESH_TOKEN_SECONDS,
        v@[1].http_only,
        v@[2].name@ == "session_payload"@,
        v@[2].value@ == "true"@,
        v@[2].max_age_seconds == REFRESH_TOKEN_SECONDS,
        !v@[2].http_only,
        forall|i: int|
            0 <= i < 3 ==> (#[trigger] v@[i]).secure == secure && v@[i].path@ == "/"@
                && v@[i].same_site_lax,
{
    let mut v: Vec<SessionCookie> = Vec::new();
    v.push(access_cookie(access_token, secure));
    v.push(make_cookie("refresh_token", refresh_token, REFRESH_TOKEN_SECONDS, true, secure));
    let mut flag = String::new();
    push_str(&mut flag, "true");
    v.push(make_cookie("session_payload", flag, REFRESH_TOKEN_SECONDS, false, secure));
    v
}

} // verus!
