//! The prover host's own computations around a capture: the pinned root
//! key hash, the fallback response handed to the proving program, and the
//! summary kept of the response.

use vstd::prelude::*;
use vstd::string::*;

use crate::crypto::{sha256_digest, sha256_hash};
use crate::encoding::{hex_encode, spec_hex_lower};
use crate::spki::{extract_spki_der_host, spec_extract_spki};

verus! {

/// The SHA-256 hash of the SubjectPublicKeyInfo of the last certificate of
/// a chain (its root), or `None` where that certificate cannot be walked.
pub fn root_spki_hash(chain: &Vec<Vec<u8>>) -> (h: Option<[u8; 32]>)
    requires
        chain@.len() > 0,
    ensures
        match spec_extract_spki(chain@.last()@) {
            None => h is None,
            Some(spki) => h is Some && h.unwrap()@ == sha256_digest(spki),
        },
{
    let root = &chain[chain.len() - 1];
    match extract_spki_der_host(root.as_slice()) {
        Some(spki) => Some(sha256_hash(spki.as_slice())),
        None => None,
    }
}

/// The HTTP response that stands in for the decrypted one: status 200, a
/// JSON content type, and `body`.
pub open spec fn spec_fallback_response(body: Seq<char>) -> Seq<char> {
    "HTTP/1.1 200 OK\r\nContent-Type: application/json\r\n\r\n"@ + body
}

/// Formats the fallback response around a body.
pub fn fallback_response(body: &str) -> (r: String)
    ensures
        r@ == spec_fallback_response(body@),
{
    let r = String::from_str("HTTP/1.1 200 OK\r\nContent-Type: application/json\r\n\r\n");
    r.concat(body)
}

/// The first 200 characters of a body, followed by "..." where it is
/// longer.
pub open spec fn spec_body_preview(body: Seq<char>) -> Seq<char> {
    if body.len() > 200 {
        body.subrange(0, 200) + "..."@
    } else {
        body
    }
}

/// Shortens a body for the proof summary.
pub fn body_preview(body: &str) -> (r: String)
    ensures
        r@ == spec_body_preview(body@),
{
    let n = body.unicode_len();
    if n > 200 {
        let head = String::from_str(body.substring_char(0, 200));
        head.concat("...")
    } else {
        String::from_str(body)
    }
}

/// The lowercase hex of the SHA-256 hash of a body's UTF-8 bytes.
pub fn body_hash_hex(body: &str) -> (r: String)
    ensures
        r@ == spec_hex_lower(sha256_digest(body.spec_bytes())),
{
    let h = sha256_hash(body.as_bytes());
    hex_encode(h.as_slice())
}

} // verus!
