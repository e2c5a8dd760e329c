//! The admin password, as HTTP Basic authentication carries it.

use base64::Engine;
use vstd::prelude::*;
use vstd::utf8::encode_utf8;

use crate::text::strip_prefix;

verus! {

broadcast use vstd::string::group_string_axioms;

/// What a text is in standard base64 with padding, as
/// `base64::engine::general_purpose::STANDARD` decodes it.
pub uninterp spec fn base64_decoded(text: Seq<char>) -> Option<Seq<u8>>;

/// Calls `Engine::decode` of `base64::engine::general_purpose::STANDARD`. The
/// result, `None` for its error, is named `base64_decoded` and depends on the
/// text alone.
#[verifier::external_body]
fn decode_base64(text: &str) -> (decoded: Option<Vec<u8>>)
    ensures
        base64_decoded(text@) == (match decoded {
            Some(bytes) => Some(bytes@),
            None => None,
        }),
{
    base64::engine::general_purpose::STANDARD.decode(text).ok()
}

/// Byte `i` of `s`, or zero past its end.
fn byte_or_zero(s: &[u8], i: usize) -> (b: u8)
    ensures
        b == (if i < s@.len() { s@[i as int] } else { 0 }),
{
    if i < s.len() {
        s[i]
    } else {
        0
    }
}

/// Compares without early exit; runtime depends only on max(len), not on where
/// the strings differ or whether lengths match.
pub fn constant_time_eq(a: &[u8], b: &[u8]) -> (equal: bool)
    ensures
        equal == (a@ == b@),
{
    let n: usize = if a.len() < b.len() { b.len() } else { a.len() };
    let mut diff: u8 = if a.len() != b.len() { 1 } else { 0 };
    let mut i: usize = 0;
    while i < n
        invariant
            i <= n,
            n == (if a@.len() < b@.len() { b@.len() } else { a@.len() }),
            diff == 0 <==> (a@.len() == b@.len() && forall|j: int| 0 <= j < i ==> a@[j] == b@[j]),
        decreases n - i,
    {
        let x: u8 = byte_or_zero(a, i);
        let y: u8 = byte_or_zero(b, i);
        assert((diff | (x ^ y)) == 0 <==> diff == 0 && x == y) by (bit_vector);
        diff = diff | (x ^ y);
        i = i + 1;
    }
    assert(diff == 0 ==> a@ =~= b@);
    diff == 0
}

/// A colon.
pub const COLON: u8 = 0x3a;

/// Is `at` the first colon of `bytes`?
pub open spec fn is_first_colon(bytes: Seq<u8>, at: int) -> bool {
    &&& 0 <= at < bytes.len()
    &&& bytes[at] == COLON
    &&& forall|i: int| 0 <= i < at ==> bytes[i] != COLON
}

/// Do credentials of the form `user:password` hold this password? The user is
/// ignored, and ends at the first colon.
pub open spec fn holds_password(credentials: Seq<u8>, password: Seq<u8>) -> bool {
    exists|at: int| #[trigger]
        is_first_colon(credentials, at) && credentials.skip(at + 1) == password
}

/// Does an `Authorization` header give the password? `None` stands for a
/// password that is not set and for a header that is not there.
pub open spec fn authorized(password: Option<Seq<char>>, header: Option<Seq<char>>) -> bool {
    &&& password matches Some(password)
    &&& header matches Some(header)
    &&& "Basic "@.is_prefix_of(header)
    &&& base64_decoded(header.skip("Basic "@.len() as int)) matches Some(credentials)
    &&& holds_password(credentials, encode_utf8(password))
}

/// Do decoded credentials hold this password?
pub fn check_credentials(credentials: &[u8], password: &str) -> (ok: bool)
    ensures
        ok == holds_password(credentials@, encode_utf8(password@)),
{
    let mut at: usize = 0;
    while at < credentials.len() && credentials[at] != COLON
        invariant
            at <= credentials@.len(),
            forall|i: int| 0 <= i < at ==> credentials@[i] != COLON,
        decreases credentials@.len() - at,
    {
        at = at + 1;
    }
    if at == credentials.len() {
        return false;
    }
    let given: &[u8] = vstd::slice::slice_subrange(credentials, at + 1, credentials.len());
    proof {
        assert(is_first_colon(credentials@, at as int));
        assert(given@ =~= credentials@.skip(at + 1));
        assert forall|other: int| is_first_colon(credentials@, other) implies other == at by {
            if other < at {
                assert(credentials@[other] != COLON);
            }
        }
    }
    constant_time_eq(given, password.as_bytes())
}

/// Does an `Authorization` header give the admin password?
pub fn admin_authorized(password: Option<&str>, header: Option<&str>) -> (ok: bool)
    ensures
        ok == authorized(
            (match password {
                Some(text) => Some(text@),
                None => None,
            }),
            (match header {
                Some(text) => Some(text@),
                None => None,
            }),
        ),
{
    let password: &str = match password {
        Some(password) => password,
        None => return false,
    };
    let header: &str = match header {
        Some(header) => header,
        None => return false,
    };
    let auth: &str = match strip_prefix(header, "Basic ") {
        Some(auth) => auth,
        None => return false,
    };
    match decode_base64(auth) {
        Some(credentials) => check_credentials(credentials.as_slice(), password),
        None => false,
    }
}

/// Where no password is set, nobody is let in.
pub proof fn law_no_password_no_access(header: Option<Seq<char>>)
    ensures
        !authorized(None, header),
{
}

/// The user does not matter: credentials hold a password exactly when it is
/// what follows the first colon, whatever user comes before.
pub proof fn law_user_is_ignored(user: Seq<u8>, given: Seq<u8>, password: Seq<u8>)
    requires
        !user.contains(COLON),
    ensures
        holds_password(user.push(COLON) + given, password) <==> given == password,
{
    let credentials = user.push(COLON) + given;
    assert(is_first_colon(credentials, user.len() as int)) by {
        assert forall|i: int| 0 <= i < user.len() implies credentials[i] != COLON by {
            assert(user.contains(user[i]));
        }
    }
    assert(credentials.skip((user.len() + 1) as int) =~= given);
    assert forall|at: int| is_first_colon(credentials, at) implies at == user.len() by {
        if at < user.len() {
            assert(user.contains(user[at]));
        } else if at > user.len() {
            assert(credentials[user.len() as int] != COLON);
        }
    }
}

/// A request is let in exactly by a header `Basic` with base64 credentials that
/// hold the password behind their first colon.
pub proof fn law_let_in_by_the_password(
    password: Seq<char>,
    encoded: Seq<char>,
    user: Seq<u8>,
    given: Seq<u8>,
)
    requires
        base64_decoded(encoded) == Some(user.push(0x3a) + given),
        !user.contains(0x3a),
    ensures
        authorized(Some(password), Some("Basic "@ + encoded)) <==> given == encode_utf8(password),
{
    let header = "Basic "@ + encoded;
    assert("Basic "@ =~= header.take("Basic "@.len() as int));
    assert("Basic "@.is_prefix_of(header));
    assert(header.skip("Basic "@.len() as int) =~= encoded);
    law_user_is_ignored(user, given, encode_utf8(password));
}

/// Nobody is let in without a header, with one of another scheme, with
/// credentials that are no base64, or with credentials that hold no colon.
pub proof fn law_others_are_kept_out(
    password: Option<Seq<char>>,
    header: Seq<char>,
    encoded: Seq<char>,
)
    ensures
        !authorized(password, None),
        !"Basic "@.is_prefix_of(header) ==> !authorized(password, Some(header)),
        base64_decoded(encoded) is None ==> !authorized(password, Some("Basic "@ + encoded)),
        (base64_decoded(encoded) matches Some(credentials) && !credentials.contains(0x3a))
            ==> !authorized(password, Some("Basic "@ + encoded)),
{
    let whole = "Basic "@ + encoded;
    assert(whole.skip("Basic "@.len() as int) =~= encoded);
    if let Some(credentials) = base64_decoded(encoded) {
        if !credentials.contains(0x3a) {
            assert forall|at: int| !is_first_colon(credentials, at) by {
                if 0 <= at < credentials.len() {
                    assert(credentials.contains(credentials[at]));
                }
            }
        }
    }
}

} // verus!
