//! Replies of the HTTP endpoints, and the two of the plain-HTTP port.

use vstd::prelude::*;

use crate::text::{all_token_chars, is_token_char};

verus! {

broadcast use vstd::string::group_string_axioms;

/// The statuses that requests are refused with.
#[derive(Debug, Clone, Copy, PartialEq, Eq, Structural)]
pub enum Status {
    Unauthorized,
    NotFound,
    UriTooLong,
    TooManyRequests,
    BadGateway,
    ServiceUnavailable,
}

impl Status {
    /// The number of the status.
    pub open spec fn number(self) -> u16 {
        match self {
            Status::Unauthorized => 401,
            Status::NotFound => 404,
            Status::UriTooLong => 414,
            Status::TooManyRequests => 429,
            Status::BadGateway => 502,
            Status::ServiceUnavailable => 503,
        }
    }

    /// The number of the status.
    pub fn code(self) -> (code: u16)
        ensures
            code == self.number(),
    {
        match self {
            Status::Unauthorized => 401,
            Status::NotFound => 404,
            Status::UriTooLong => 414,
            Status::TooManyRequests => 429,
            Status::BadGateway => 502,
            Status::ServiceUnavailable => 503,
        }
    }
}

/// A refusal: its status, the challenge that goes in the `www-authenticate`
/// header where there is one, and its body.
pub struct Refusal {
    pub status: Status,
    pub challenge: Option<&'static str>,
    pub body: &'static str,
}

impl Refusal {
    /// The refusal of a request over the rate limits.
    pub open spec fn is_rate_limited(self) -> bool {
        &&& self.status == Status::TooManyRequests
        &&& self.challenge is None
        &&& self.body@ == "RATE LIMITED"@
    }

    /// The refusal of a request without the admin password.
    pub open spec fn is_unauthorized(self) -> bool {
        &&& self.status == Status::Unauthorized
        &&& self.challenge matches Some(challenge) && challenge@
            == "Basic realm=\"sidepulse-admin\""@
        &&& self.body@ == "UNAUTHORIZED"@
    }
}

/// Refuses a request over the rate limits.
pub fn rate_limited() -> (refusal: Refusal)
    ensures
        refusal.is_rate_limited(),
{
    Refusal { status: Status::TooManyRequests, challenge: None, body: "RATE LIMITED" }
}

/// Refuses a request without the admin password.
pub fn admin_401() -> (refusal: Refusal)
    ensures
        refusal.is_unauthorized(),
{
    Refusal {
        status: Status::Unauthorized,
        challenge: Some("Basic realm=\"sidepulse-admin\""),
        body: "UNAUTHORIZED",
    }
}

/// What a post to a device is answered, given what came of sending the push.
pub fn push_reply(sent: Result<(), String>) -> (r: Result<&'static str, (Status, String)>)
    ensures
        match sent {
            Ok(_) => r matches Ok(text) && text@ == "OK"@,
            Err(e) => r matches Err((status, text)) && status == Status::BadGateway && text@
                == "APNS ERROR: "@ + e@,
        },
{
    match sent {
        Ok(_) => Ok("OK"),
        Err(e) => {
            let mut text: String = "APNS ERROR: ".to_string();
            text.append(e.as_str());
            Err((Status::BadGateway, text))
        },
    }
}

/// Is every character of a challenge token a letter, a digit, `-` or `_`?
pub open spec fn is_token(token: Seq<char>) -> bool {
    forall|i: int| 0 <= i < token.len() ==> is_token_char(#[trigger] token[i])
}

/// The file that answers an ACME challenge. A token that could name anything
/// but a file of that directory is refused.
pub fn acme_challenge(webroot: &str, token: &str) -> (r: Result<String, Status>)
    ensures
        match r {
            Ok(path) => is_token(token@) && path@ == webroot@ + "/.well-known/acme-challenge/"@
                + token@,
            Err(status) => !is_token(token@) && status == Status::NotFound,
        },
{
    if !all_token_chars(token) {
        return Err(Status::NotFound);
    }
    let mut path: String = webroot.to_string();
    path.append("/.well-known/acme-challenge/");
    path.append(token);
    Ok(path)
}

/// Where the plain-HTTP port sends a request. Pinned to the canonical domain:
/// the request never chooses the host.
pub fn redirect_https(domain: Option<String>, path_and_query: Option<&str>) -> (target: String)
    ensures
        target@ == "https://"@ + (match domain {
            Some(domain) => domain@,
            None => "bridge.sidepulse.io"@,
        }) + (match path_and_query {
            Some(path) => path@,
            None => "/"@,
        }),
{
    let mut target: String = "https://".to_string();
    match domain {
        Some(domain) => target.append(domain.as_str()),
        None => target.append("bridge.sidepulse.io"),
    }
    match path_and_query {
        Some(path) => target.append(path),
        None => target.append("/"),
    }
    target
}

/// A challenge file lies directly in its directory: the token of its name holds
/// no path separator and no dot.
pub proof fn law_challenge_stays_in_directory(token: Seq<char>)
    requires
        is_token(token),
    ensures
        !token.contains('/'),
        !token.contains('\\'),
        !token.contains('.'),
{
    assert forall|i: int| 0 <= i < token.len() implies token[i] != '/' && token[i] != '\\'
        && token[i] != '.' by {
        assert(is_token_char(token[i]));
    }
}

/// A challenge token is made of letters and digits of ASCII, `-` and `_`, and
/// every text made of these is one.
pub proof fn law_token_characters(token: Seq<char>)
    ensures
        is_token(token) <==> forall|i: int|
            0 <= i < token.len() ==> {
                let c = #[trigger] token[i];
                c == '-' || c == '_' || '0' <= c <= '9' || 'a' <= c <= 'z' || 'A' <= c <= 'Z'
            },
{
    if is_token(token) {
        assert forall|i: int| 0 <= i < token.len() implies {
            let c = #[trigger] token[i];
            c == '-' || c == '_' || '0' <= c <= '9' || 'a' <= c <= 'z' || 'A' <= c <= 'Z'
        } by {
            assert(is_token_char(token[i]));
        }
    }
}

/// Each refusal has its number in HTTP, and no two the same.
pub proof fn law_status_numbers(a: Status, b: Status)
    ensures
        a == Status::Unauthorized <==> a.number() == 401,
        a == Status::NotFound <==> a.number() == 404,
        a == Status::UriTooLong <==> a.number() == 414,
        a == Status::TooManyRequests <==> a.number() == 429,
        a == Status::BadGateway <==> a.number() == 502,
        a == Status::ServiceUnavailable <==> a.number() == 503,
        a.number() == b.number() <==> a == b,
{
}

} // verus!
