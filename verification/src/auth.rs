//! The login handshake: the router sends a challenge in hexadecimal, and
//! the answer is the MD5 digest of a zero byte, the password and the
//! challenge.

use vstd::prelude::*;
use vstd::string::StringSliceAdditionalSpecFns;
use crypto::digest::Digest;
use crypto::md5::Md5;
use crate::codec::{append_bytes, MAX_WORD_LEN};
use crate::errors::{ErrorView, MikrotikError, UnhexlifyError};
use crate::mapper::{spec_attribute_map, to_attribute_map};
use crate::sentence::encodable;
use crate::utils::{spec_unhexlify, unhexlify_bytes, widen};
use crate::words::{ascii, bytes_of, word_views};

verus! {

/// The MD5 digest of `data` as 32 hexadecimal digits in lower case.
pub uninterp spec fn md5_hex(data: Seq<u8>) -> Seq<u8>;

/// Computes the MD5 digest of `data` with `crypto::md5::Md5`: `new`, one
/// `input` of all of `data`, then `result_str`. That the result is the
/// digest is taken from the crate; so is its length, sixteen bytes written
/// as two digits each.
#[verifier::external_body]
fn md5_hex_digest(data: &[u8]) -> (r: Vec<u8>)
    ensures
        r@ == md5_hex(data@),
        r@.len() == 32,
{
    let mut md = Md5::new();
    md.input(data);
    md.result_str().into_bytes()
}

/// What is digested to answer a challenge: a zero byte, the password, the
/// challenge.
pub open spec fn digest_input(pwd: Seq<u8>, challenge: Seq<u8>) -> Seq<u8> {
    seq![0u8] + pwd + challenge
}

/// The request that opens the handshake.
pub open spec fn spec_login_start() -> Seq<Seq<u8>> {
    seq![ascii("/login"@)]
}

/// The request that answers the challenge: the command, the user's name,
/// and the digest behind the two digits `00`.
pub open spec fn spec_login_request(username: Seq<u8>, digest: Seq<u8>) -> Seq<Seq<u8>> {
    seq![ascii("/login"@), ascii("=name="@) + username, ascii("=response=00"@) + digest]
}

/// The challenge that a reply carries: the value of its `=ret` attribute,
/// read as hexadecimal digits. A reply without the attribute is read as
/// one with an empty value.
pub open spec fn spec_login_challenge(reply: Seq<Seq<u8>>) -> Result<Seq<u8>, UnhexlifyError> {
    let attrs = spec_attribute_map(reply);
    let key = ascii("=ret"@);
    if attrs.contains_key(key) {
        spec_unhexlify(widen(attrs[key]))
    } else {
        spec_unhexlify(Seq::<char>::empty())
    }
}

/// The request that opens the handshake: the one word `/login`.
pub fn login_start() -> (r: Vec<Vec<u8>>)
    ensures
        word_views(r@) == spec_login_start(),
        encodable(word_views(r@)),
{
    proof {
        reveal_strlit("/login");
    }
    let mut r: Vec<Vec<u8>> = Vec::new();
    r.push(bytes_of("/login"));
    assert(word_views(r@) =~= spec_login_start());
    r
}

/// Reads the challenge out of the reply to the first request.
pub fn login_challenge(reply: &Vec<Vec<u8>>) -> (r: Result<Vec<u8>, MikrotikError>)
    ensures
        match r {
            Ok(challenge) => spec_login_challenge(word_views(reply@)) == Ok::<
                Seq<u8>,
                UnhexlifyError,
            >(challenge@),
            Err(e) => match e@ {
                ErrorView::Unhexlify(x) => spec_login_challenge(word_views(reply@)) == Err::<
                    Seq<u8>,
                    UnhexlifyError,
                >(x),
                _ => false,
            },
        },
{
    proof {
        reveal_strlit("=ret");
    }
    let attrs = to_attribute_map(reply);
    let key = bytes_of("=ret");
    let decoded = match attrs.get(key.as_slice()) {
        Some(hex) => unhexlify_bytes(hex.as_slice()),
        None => {
            let none: Vec<u8> = Vec::new();
            assert(widen(none@) =~= Seq::<char>::empty());
            unhexlify_bytes(none.as_slice())
        },
    };
    match decoded {
        Ok(challenge) => Ok(challenge),
        Err(e) => Err(MikrotikError::UnhexlifyError(e)),
    }
}

/// Builds the request that answers a challenge from the user's name and
/// the digest in hexadecimal.
pub fn login_request(username: &[u8], digest: &[u8]) -> (r: Vec<Vec<u8>>)
    ensures
        word_views(r@) == spec_login_request(username@, digest@),
{
    proof {
        reveal_strlit("/login");
        reveal_strlit("=name=");
        reveal_strlit("=response=00");
    }
    let mut name = bytes_of("=name=");
    append_bytes(&mut name, username);
    let mut response = bytes_of("=response=00");
    append_bytes(&mut response, digest);
    let mut r: Vec<Vec<u8>> = Vec::new();
    r.push(bytes_of("/login"));
    r.push(name);
    r.push(response);
    assert(word_views(r@) =~= spec_login_request(username@, digest@));
    r
}

/// Answers a challenge: digests the password with it and builds the second
/// request of the handshake.
pub fn login_response(username: &str, pwd: &str, challenge: &[u8]) -> (r: Vec<Vec<u8>>)
    ensures
        word_views(r@) == spec_login_request(
            username.spec_bytes(),
            md5_hex(digest_input(pwd.spec_bytes(), challenge@)),
        ),
        username.spec_bytes().len() + 6 <= MAX_WORD_LEN ==> encodable(word_views(r@)),
{
    let mut data: Vec<u8> = Vec::new();
    data.push(0u8);
    append_bytes(&mut data, pwd.as_bytes());
    append_bytes(&mut data, challenge);
    assert(data@ =~= digest_input(pwd.spec_bytes(), challenge@));
    let digest = md5_hex_digest(data.as_slice());
    let r = login_request(username.as_bytes(), digest.as_slice());
    proof {
        reveal_strlit("/login");
        reveal_strlit("=name=");
        reveal_strlit("=response=00");
        let ws = word_views(r@);
        if username.spec_bytes().len() + 6 <= MAX_WORD_LEN {
            assert forall|i: int| 0 <= i < ws.len() implies (#[trigger] ws[i]).len()
                <= MAX_WORD_LEN by {
                if i == 0 {
                } else if i == 1 {
                } else {
                }
            }
        }
    }
    r
}

} // verus!
