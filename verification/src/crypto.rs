//! The cryptographic steps of a TLS 1.3 session check: SHA-256, ECDSA P-256
//! verification, HKDF-SHA384 key schedule and AES-256-GCM record opening.
//! The primitives come from their crates; what surrounds them (the labels,
//! nonces, additional data and key encodings) is verified here.

use aes_gcm::aead::{Aead, Payload};
use aes_gcm::{Aes256Gcm, KeyInit};
use hkdf::Hkdf;
use p256::ecdsa::signature::hazmat::PrehashVerifier;
use p256::ecdsa::{Signature, VerifyingKey};
use sha2::{Digest, Sha256, Sha384};
use vstd::prelude::*;

verus! {

/// The SHA-256 digest of a byte string.
pub uninterp spec fn sha256_digest(data: Seq<u8>) -> Seq<u8>;

/// Whether `sig_der` (a DER ECDSA signature) verifies the 32-byte `prehash`
/// under the SEC1-encoded P-256 key `sec1`; false where either encoding is
/// refused.
pub uninterp spec fn p256_prehash_valid(sec1: Seq<u8>, sig_der: Seq<u8>, prehash: Seq<u8>) -> bool;

/// HKDF-Expand with HMAC-SHA384 of the pseudorandom key `prk` and the
/// context `info`, `len` bytes long.
pub uninterp spec fn hkdf_sha384_expand(prk: Seq<u8>, info: Seq<u8>, len: nat) -> Seq<u8>;

/// AES-256-GCM opening of `ct` (ciphertext followed by its 16-byte tag)
/// under `key`, `nonce` and additional data `aad`; `None` where the tag does
/// not authenticate.
pub uninterp spec fn aes256_gcm_open(key: Seq<u8>, nonce: Seq<u8>, aad: Seq<u8>, ct: Seq<u8>) -> Option<Seq<u8>>;

/// `sha2::Sha256::digest`: the contract names the digest of the input.
#[verifier::external_body]
fn sha256(data: &[u8]) -> (h: [u8; 32])
    ensures
        h@ == sha256_digest(data@),
{
    Sha256::digest(data).into()
}

/// The SHA-384 digest of a byte string.
pub uninterp spec fn sha384_digest(data: Seq<u8>) -> Seq<u8>;

/// `sha2::Sha384::digest`: the contract names the 48-byte digest.
#[verifier::external_body]
fn sha384(data: &[u8]) -> (h: [u8; 48])
    ensures
        h@ == sha384_digest(data@),
{
    Sha384::digest(data).into()
}

/// `VerifyingKey::from_sec1_bytes`, `Signature::from_der` and
/// `verify_prehash` of the `p256` crate, an error of either decoding giving
/// false: the contract names the outcome for the three inputs.
#[verifier::external_body]
fn p256_verify_prehash(sec1: &[u8], sig_der: &[u8], prehash: &[u8]) -> (ok: bool)
    ensures
        ok == p256_prehash_valid(sec1@, sig_der@, prehash@),
{
    let key = match VerifyingKey::from_sec1_bytes(sec1) {
        Ok(k) => k,
        Err(_) => return false,
    };
    let sig = match Signature::from_der(sig_der) {
        Ok(s) => s,
        Err(_) => return false,
    };
    key.verify_prehash(prehash, &sig).is_ok()
}

/// `Hkdf::<Sha384>::from_prk` followed by `expand` into `len` bytes. The
/// crate refuses a key shorter than the 48-byte hash and an output longer
/// than 255 hash blocks; the contract leaves both out and names the output,
/// which fills the whole buffer.
#[verifier::external_body]
fn hkdf_expand(prk: &[u8], info: &[u8], len: usize) -> (okm: Vec<u8>)
    requires
        prk@.len() >= 48,
        len <= 255 * 48,
    ensures
        okm@ == hkdf_sha384_expand(prk@, info@, len as nat),
        okm@.len() == len,
{
    let hk = Hkdf::<Sha384>::from_prk(prk).unwrap();
    let mut okm = vec![0u8; len];
    hk.expand(info, &mut okm).unwrap();
    okm
}

/// `Aes256Gcm::decrypt` with a payload of `ct` and `aad`: the contract names
/// the outcome, `None` for a tag that does not authenticate.
#[verifier::external_body]
pub(crate) fn aes256_gcm_decrypt(key: &[u8; 32], nonce: &[u8; 12], aad: &[u8], ct: &[u8]) -> (pt: Option<Vec<u8>>)
    ensures
        pt matches Some(p) ==> aes256_gcm_open(key@, nonce@, aad@, ct@) == Some(p@),
        pt is None ==> aes256_gcm_open(key@, nonce@, aad@, ct@) is None,
{
    let cipher = Aes256Gcm::new(aes_gcm::Key::<Aes256Gcm>::from_slice(key));
    let nonce = aes_gcm::Nonce::from_slice(nonce);
    cipher.decrypt(nonce, Payload { msg: ct, aad }).ok()
}

/// The bytes of "tls13 ", the prefix of every TLS 1.3 HKDF label.
pub open spec fn tls13_prefix() -> Seq<u8> {
    seq![0x74u8, 0x6c, 0x73, 0x31, 0x33, 0x20]
}

/// The HkdfLabel structure of TLS 1.3: the output length (big-endian), the
/// length-prefixed label "tls13 " + `label`, and the length-prefixed context.
/// Each length prefix is one byte, kept modulo 256.
pub open spec fn spec_hkdf_label(label: Seq<u8>, ctx: Seq<u8>, len: u16) -> Seq<u8> {
    seq![(len / 256) as u8, (len % 256) as u8] + seq![((6 + label.len()) % 256) as u8] + tls13_prefix()
        + label + seq![(ctx.len() % 256) as u8] + ctx
}

/// Encodes the TLS 1.3 HkdfLabel for `label`, `ctx` and output length `len`.
fn hkdflabel(label: &[u8], ctx: &[u8], len: u16) -> (v: Vec<u8>)
    ensures
        v@ == spec_hkdf_label(label@, ctx@, len),
{
    let mut v: Vec<u8> = Vec::new();
    v.push((len / 256) as u8);
    v.push((len % 256) as u8);
    v.push(((6 + label.len() % 256) % 256) as u8);
    assert(((6 + label@.len() % 256) % 256) == ((6 + label@.len()) % 256)) by (nonlinear_arith);
    v.push(0x74);
    v.push(0x6c);
    v.push(0x73);
    v.push(0x31);
    v.push(0x33);
    v.push(0x20);
    push_all(&mut v, label);
    v.push((ctx.len() % 256) as u8);
    push_all(&mut v, ctx);
    assert(v@ =~= spec_hkdf_label(label@, ctx@, len));
    v
}

/// Appends every byte of `s` to `v`.
pub(crate) fn push_all(v: &mut Vec<u8>, s: &[u8])
    ensures
        final(v)@ == old(v)@ + s@,
{
    let mut i: usize = 0;
    while i < s.len()
        invariant
            i <= s@.len(),
            v@ == old(v)@ + s@.subrange(0, i as int),
        decreases s@.len() - i,
    {
        v.push(s[i]);
        i += 1;
        assert(v@ =~= old(v)@ + s@.subrange(0, i as int));
    }
    assert(s@.subrange(0, s@.len() as int) =~= s@);
}

/// The label "key" of the TLS 1.3 traffic key.
pub open spec fn key_label() -> Seq<u8> {
    seq![0x6bu8, 0x65, 0x79]
}

/// The label "iv" of the TLS 1.3 traffic IV.
pub open spec fn iv_label() -> Seq<u8> {
    seq![0x69u8, 0x76]
}

/// The AES-256-GCM key of a TLS 1.3 traffic secret.
pub open spec fn spec_traffic_key(secret: Seq<u8>) -> Seq<u8> {
    hkdf_sha384_expand(secret, spec_hkdf_label(key_label(), seq![], 32), 32)
}

/// The 12-byte IV of a TLS 1.3 traffic secret.
pub open spec fn spec_traffic_iv(secret: Seq<u8>) -> Seq<u8> {
    hkdf_sha384_expand(secret, spec_hkdf_label(iv_label(), seq![], 12), 12)
}

/// Copies a 32-byte buffer into an array.
fn to_array_32(v: &Vec<u8>) -> (a: [u8; 32])
    requires
        v@.len() == 32,
    ensures
        a@ == v@,
{
    let mut a = [0u8; 32];
    let mut i: usize = 0;
    while i < 32
        invariant
            v@.len() == 32,
            i <= 32,
            a@.len() == 32,
            forall|j: int| 0 <= j < i ==> a@[j] == v@[j],
        decreases 32 - i,
    {
        a[i] = v[i];
        i += 1;
    }
    assert(a@ =~= v@);
    a
}

/// Copies a 12-byte buffer into an array.
fn to_array_12(v: &Vec<u8>) -> (a: [u8; 12])
    requires
        v@.len() == 12,
    ensures
        a@ == v@,
{
    let mut a = [0u8; 12];
    let mut i: usize = 0;
    while i < 12
        invariant
            v@.len() == 12,
            i <= 12,
            a@.len() == 12,
            forall|j: int| 0 <= j < i ==> a@[j] == v@[j],
        decreases 12 - i,
    {
        a[i] = v[i];
        i += 1;
    }
    assert(a@ =~= v@);
    a
}

/// Derives the AES-256-GCM key and IV of a TLS 1.3 traffic secret (the
/// secret is already a pseudorandom key of the SHA-384 schedule). The
/// secret must be at least as long as a SHA-384 hash.
pub fn derive_key_iv(secret: &[u8]) -> (res: ([u8; 32], [u8; 12]))
    requires
        secret@.len() >= 48,
    ensures
        res.0@ == spec_traffic_key(secret@),
        res.1@ == spec_traffic_iv(secret@),
{
    let empty: &[u8] = &[];
    assert(empty@ =~= Seq::<u8>::empty());
    let key_name: [u8; 3] = [0x6b, 0x65, 0x79];
    let iv_name: [u8; 2] = [0x69, 0x76];
    assert(key_name@ =~= key_label());
    assert(iv_name@ =~= iv_label());
    let key_info = hkdflabel(key_name.as_slice(), empty, 32);
    let iv_info = hkdflabel(iv_name.as_slice(), empty, 12);
    let key = hkdf_expand(secret, key_info.as_slice(), 32);
    let iv = hkdf_expand(secret, iv_info.as_slice(), 12);
    (to_array_32(&key), to_array_12(&iv))
}

/// The SEC1 uncompressed encoding of a P-256 point: 0x04, then x and y.
pub open spec fn spec_sec1_point(point: Seq<u8>) -> Seq<u8> {
    seq![0x04u8] + point
}

/// Whether `sig_der` is a valid ECDSA P-256 / SHA-256 signature of `message`
/// under the key point `point`.
pub open spec fn spec_ecdsa_p256_valid(message: Seq<u8>, sig_der: Seq<u8>, point: Seq<u8>) -> bool {
    p256_prehash_valid(spec_sec1_point(point), sig_der, sha256_digest(message))
}

/// Verifies an ECDSA P-256 signature over the SHA-256 hash of `message`.
pub fn verify_ecdsa_p256(message: &[u8], sig_der: &[u8], pubkey_point: &[u8; 64]) -> (ok: bool)
    ensures
        ok == spec_ecdsa_p256_valid(message@, sig_der@, pubkey_point@),
{
    let mut sec1: Vec<u8> = Vec::with_capacity(65);
    sec1.push(0x04);
    push_all(&mut sec1, pubkey_point.as_slice());
    assert(sec1@ =~= spec_sec1_point(pubkey_point@));
    let hash = sha256(message);
    p256_verify_prehash(sec1.as_slice(), sig_der, hash.as_slice())
}

/// The SHA-256 digest of a byte string, as a 32-byte array.
pub fn sha256_hash(data: &[u8]) -> (h: [u8; 32])
    ensures
        h@ == sha256_digest(data@),
{
    sha256(data)
}

/// The SHA-384 digest of a byte string, as a 48-byte array.
pub fn sha384_hash(data: &[u8]) -> (h: [u8; 48])
    ensures
        h@ == sha384_digest(data@),
{
    sha384(data)
}

} // verus!
