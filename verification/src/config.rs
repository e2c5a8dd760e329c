//! What the environment and the files on disk settle at the start.

use vstd::prelude::*;

use crate::text::{parse_unsigned, unsigned_value};

verus! {

broadcast use vstd::string::group_string_axioms;

/// Seconds that a queued message lives unless set otherwise.
pub const MSG_TTL_SECS: u64 = 300;

/// Queued messages exist only to bridge dropped-connection recovery: a message
/// older than this many seconds is never delivered. Set by the variable
/// `QUEUE_TTL_SECS`.
pub fn msg_ttl(var: Option<&str>) -> (secs: u64)
    ensures
        secs == (match var {
            Some(text) => match unsigned_value(text@, u64::MAX as nat) {
                Some(n) => n as u64,
                None => MSG_TTL_SECS,
            },
            None => MSG_TTL_SECS,
        }),
{
    match var {
        Some(text) => match parse_unsigned(text, u64::MAX) {
            Some(n) => n,
            None => MSG_TTL_SECS,
        },
        None => MSG_TTL_SECS,
    }
}

/// The admin password, if the variable `ADMIN_PASSWORD` sets one: an empty one
/// does not count.
pub fn admin_password(var: Option<String>) -> (password: Option<String>)
    ensures
        password == (match var {
            Some(text) => if text@.len() > 0 { var } else { None },
            None => None,
        }),
{
    match var {
        Some(text) => if text.as_str().is_empty() {
            None
        } else {
            Some(text)
        },
        None => None,
    }
}

/// A variable, or what stands for it where it is not set.
pub fn var_or(var: Option<String>, default: &str) -> (text: String)
    ensures
        text@ == (match var {
            Some(value) => value@,
            None => default@,
        }),
{
    match var {
        Some(value) => value,
        None => default.to_string(),
    }
}

/// What opening a file came to.
#[derive(Debug, Clone, Copy, PartialEq, Eq, Structural)]
pub enum Opened {
    Yes,
    /// There is no such file.
    NotFound,
    /// It is there and cannot be read.
    Failed,
}

/// Is TLS to be used? Distinguishes certificates that were not set up, where
/// plain HTTP is served, from certificates that are there but cannot be read, a
/// misconfiguration for which there is no answer: plaintext is never served
/// silently.
pub fn tls_ready(cert: Opened, key: Opened) -> (ready: Option<bool>)
    ensures
        ready == (if cert == Opened::Yes && key == Opened::Yes {
            Some(true)
        } else if cert == Opened::NotFound && key == Opened::NotFound {
            Some(false)
        } else {
            None
        }),
{
    match (cert, key) {
        (Opened::Yes, Opened::Yes) => Some(true),
        (Opened::NotFound, Opened::NotFound) => Some(false),
        _ => None,
    }
}

/// The address to listen on.
pub fn bind_address(var: Option<String>, tls: bool) -> (addr: String)
    ensures
        addr@ == (match var {
            Some(value) => value@,
            None => if tls {
                "0.0.0.0:443"@
            } else {
                "0.0.0.0:8080"@
            },
        }),
{
    if tls {
        var_or(var, "0.0.0.0:443")
    } else {
        var_or(var, "0.0.0.0:8080")
    }
}

/// The plain-HTTP port: where challenge files lie, and the address to listen on.
pub fn http_redirect(webroot: Option<String>, bind: Option<String>) -> (r: (String, String))
    ensures
        r.0@ == (match webroot {
            Some(value) => value@,
            None => "/var/lib/sidepulse-bridge/acme"@,
        }),
        r.1@ == (match bind {
            Some(value) => value@,
            None => "0.0.0.0:80"@,
        }),
{
    (var_or(webroot, "/var/lib/sidepulse-bridge/acme"), var_or(bind, "0.0.0.0:80"))
}

/// The certificate chain and the private key.
pub fn tls_files(cert: Option<String>, key: Option<String>) -> (r: (String, String))
    ensures
        r.0@ == (match cert {
            Some(value) => value@,
            None => "/etc/letsencrypt/live/bridge.sidepulse.io/fullchain.pem"@,
        }),
        r.1@ == (match key {
            Some(value) => value@,
            None => "/etc/letsencrypt/live/bridge.sidepulse.io/privkey.pem"@,
        }),
{
    (
        var_or(cert, "/etc/letsencrypt/live/bridge.sidepulse.io/fullchain.pem"),
        var_or(key, "/etc/letsencrypt/live/bridge.sidepulse.io/privkey.pem"),
    )
}

/// Watches the certificate file: remembers when it was last written, in
/// nanoseconds from the Unix epoch; `None` stands for a time that cannot be had.
pub struct CertWatch {
    last: Option<i128>,
}

impl CertWatch {
    /// When the file was last seen to be written.
    pub closed spec fn last(&self) -> Option<i128> {
        self.last
    }

    /// A watch on a file written at that time.
    pub fn new(last: Option<i128>) -> (watch: CertWatch)
        ensures
            watch.last() == last,
    {
        CertWatch { last }
    }

    /// Looks at the file again. Says whether the certificate is to be reloaded,
    /// which it is once for each change.
    pub fn changed(&mut self, current: Option<i128>) -> (reload: bool)
        ensures
            final(self).last() == current,
            reload == (current != old(self).last()),
    {
        let same: bool = match (self.last, current) {
            (Some(a), Some(b)) => a == b,
            (None, None) => true,
            _ => false,
        };
        self.last = current;
        !same
    }
}

} // verus!
