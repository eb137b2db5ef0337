//! Who may see the dashboard.

use crate::text::{from_utf8, has_prefix, lemma_find_is, occurs_at, same, split_at_first, split_once, strip_prefix};
use base64::engine::general_purpose::STANDARD;
use base64::Engine;
use vstd::prelude::*;
use vstd::utf8::{decode_utf8, encode_utf8, encode_utf8_decode_utf8, encode_utf8_valid_utf8, valid_utf8};

verus! {

/// The bytes that a text in base64 stands for, with the standard alphabet and with padding; nothing if it
/// is no such text.
pub uninterp spec fn base64_bytes(text: Seq<char>) -> Option<Seq<u8>>;

/// What an optional vector of bytes holds.
pub open spec fn bytes_view(o: Option<Vec<u8>>) -> Option<Seq<u8>> {
    match o {
        Some(v) => Some(v@),
        None => None,
    }
}

/// `base64::Engine::decode` of the engine `STANDARD`: what it returns depends on the text alone, and is
/// named. Which texts it takes is not stated.
#[verifier::external_body]
fn decode_base64(text: &str) -> (r: Option<Vec<u8>>)
    ensures
        bytes_view(r) == base64_bytes(text@),
{
    STANDARD.decode(text).ok()
}

/// Decoded credentials are these: a user and a password with a colon between them.
pub open spec fn credentials_are(bytes: Seq<u8>, user: Seq<char>, password: Seq<char>) -> bool {
    valid_utf8(bytes) && split_at_first(decode_utf8(bytes), ":"@) == Some((user, password))
}

/// A header grants access.
pub open spec fn granted(header: Option<Seq<char>>, user: Seq<char>, password: Seq<char>) -> bool {
    match header {
        None => false,
        Some(h) => has_prefix(h, "Basic "@) && match base64_bytes(h.skip("Basic "@.len() as int)) {
            None => false,
            Some(bytes) => credentials_are(bytes, user, password),
        },
    }
}

/// Whether decoded credentials are these.
pub fn check_decoded(bytes: Vec<u8>, expected_user: &str, expected_password: &str) -> (r: bool)
    ensures
        r == credentials_are(bytes@, expected_user@, expected_password@),
{
    match from_utf8(bytes) {
        Err(_) => false,
        Ok(text) => match split_once(text.as_str(), ":") {
            None => false,
            Some((user, password)) => same(user.as_str(), expected_user) && same(password.as_str(), expected_password),
        },
    }
}

/// Checks the value of an `Authorization` header. The answer is the same `false` for everything that is
/// wrong with it, so that it does not tell what that is.
pub fn check(header: Option<&str>, expected_user: &str, expected_password: &str) -> (r: bool)
    ensures
        r == granted(
            match header {
                Some(h) => Some(h@),
                None => None,
            },
            expected_user@,
            expected_password@,
        ),
{
    match header {
        None => false,
        Some(h) => match strip_prefix(h, "Basic ") {
            None => false,
            Some(encoded) => match decode_base64(encoded.as_str()) {
                None => false,
                Some(bytes) => check_decoded(bytes, expected_user, expected_password),
            },
        },
    }
}

/// The credentials of a user whose name has no colon are accepted as they were put together, and no other
/// credentials are.
pub proof fn law_credentials(user: Seq<char>, password: Seq<char>, other_user: Seq<char>, other_password: Seq<char>)
    requires
        !user.contains(':'),
    ensures
        credentials_are(encode_utf8(user + ":"@ + password), other_user, other_password) <==> other_user == user
            && other_password == password,
{
    reveal_strlit(":");
    let colon = ":"@;
    let text = user + colon + password;
    encode_utf8_valid_utf8(text);
    encode_utf8_decode_utf8(text);
    let k = user.len() as int;
    assert(text.subrange(k, k + 1) =~= colon);
    assert forall|j: int| 0 <= j < k implies !#[trigger] occurs_at(text, colon, j) by {
        if occurs_at(text, colon, j) {
            assert(text.subrange(j, j + 1)[0] == ':');
            assert(user[j] == ':');
        }
    }
    lemma_find_is(text, colon, 0, k);
    assert(text.take(k) =~= user);
    assert(text.skip(k + 1) =~= password);
}

} // verus!
