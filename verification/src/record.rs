//! Opening one protected TLS 1.3 record: the per-record nonce, the record
//! header as additional data, and the inner plaintext's content type.

use vstd::prelude::*;
use vstd::slice::slice_to_vec;

use crate::crypto::aes256_gcm_open;
use crate::tls_record::TlsRecord;

verus! {

/// Byte `k` (0 is the most significant) of the big-endian encoding of `x`.
pub open spec fn be_byte(x: u64, k: int) -> u8 {
    ((x >> ((56 - 8 * k) as u64)) & 0xffu64) as u8
}

/// The per-record nonce: the IV with the 64-bit record sequence number,
/// big-endian, XORed into its last eight bytes.
pub open spec fn spec_nonce(iv: Seq<u8>, seq: u64) -> Seq<u8> {
    Seq::new(12, |i: int| if i < 4 { iv[i] } else { iv[i] ^ be_byte(seq, i - 4) })
}

/// The additional data of a protected record: the header of an
/// application-data record (type 23, version 0x0303) with the payload length,
/// taken modulo 2^16.
pub open spec fn spec_aad(len: nat) -> Seq<u8> {
    let l = (len % 65536) as int;
    seq![23u8, 3, 3, (l / 256) as u8, (l % 256) as u8]
}

/// A byte string without its trailing zero bytes.
pub open spec fn spec_strip_zeros(s: Seq<u8>) -> Seq<u8>
    decreases s.len(),
{
    if s.len() > 0 && s.last() == 0 {
        spec_strip_zeros(s.drop_last())
    } else {
        s
    }
}

/// The content and content type of a decrypted record: the last byte is the
/// type, and the zero bytes just before it are padding.
pub open spec fn spec_inner_plaintext(pt: Seq<u8>) -> Option<(Seq<u8>, u8)> {
    if pt.len() == 0 {
        None
    } else {
        Some((spec_strip_zeros(pt.drop_last()), pt.last()))
    }
}

/// Opening a record with `key` and `iv` at sequence number `seq`.
pub open spec fn spec_decrypt_record(key: Seq<u8>, iv: Seq<u8>, seq: u64, payload: Seq<u8>) -> Option<
    (Seq<u8>, u8),
> {
    match aes256_gcm_open(key, spec_nonce(iv, seq), spec_aad(payload.len()), payload) {
        None => None,
        Some(pt) => spec_inner_plaintext(pt),
    }
}

/// Splits a decrypted record into its content and content type; `None` for
/// an empty plaintext.
pub fn unwrap_inner_plaintext(pt: &[u8]) -> (res: Option<(Vec<u8>, u8)>)
    ensures
        match spec_inner_plaintext(pt@) {
            None => res is None,
            Some((data, ty)) => res is Some && res.unwrap().0@ == data && res.unwrap().1 == ty,
        },
{
    if pt.len() == 0 {
        return None;
    }
    let inner_type = pt[pt.len() - 1];
    let end = pt.len() - 1;
    let mut data_end = end;
    while data_end > 0 && pt[data_end - 1] == 0
        invariant
            data_end <= end == pt@.len() - 1,
            spec_strip_zeros(pt@.drop_last()) == spec_strip_zeros(pt@.subrange(0, data_end as int)),
        decreases data_end,
    {
        assert(pt@.subrange(0, data_end as int).drop_last() =~= pt@.subrange(0, data_end - 1));
        data_end -= 1;
    }
    assert(pt@.subrange(0, end as int) =~= pt@.drop_last());
    let data = slice_to_vec(&pt[0..data_end]);
    Some((data, inner_type))
}

/// The nonce of record number `seq`.
fn record_nonce(iv: &[u8; 12], seq: u64) -> (nonce: [u8; 12])
    ensures
        nonce@ == spec_nonce(iv@, seq),
{
    let mut nonce = *iv;
    let mut i: usize = 0;
    while i < 8
        invariant
            i <= 8,
            nonce@.len() == 12,
            iv@.len() == 12,
            forall|j: int| 0 <= j < 4 + i ==> nonce@[j] == spec_nonce(iv@, seq)[j],
            forall|j: int| 4 + i <= j < 12 ==> nonce@[j] == iv@[j],
        decreases 8 - i,
    {
        let b = ((seq >> ((56 - 8 * i) as u64)) & 0xff) as u8;
        nonce[4 + i] = nonce[4 + i] ^ b;
        i += 1;
    }
    assert(nonce@ =~= spec_nonce(iv@, seq));
    nonce
}

/// Decrypts one protected record: its plaintext content and its inner
/// content type, or `None` where the record does not authenticate or
/// decrypts to nothing.
pub fn decrypt_record(key: &[u8; 32], iv: &[u8; 12], seq: u64, record: &TlsRecord) -> (res: Option<
    (Vec<u8>, u8),
>)
    ensures
        match spec_decrypt_record(key@, iv@, seq, record.data@) {
            None => res is None,
            Some((data, ty)) => res is Some && res.unwrap().0@ == data && res.unwrap().1 == ty,
        },
{
    let nonce = record_nonce(iv, seq);
    let data_len: usize = record.data.len() % 65536;
    let aad: [u8; 5] = [23, 3, 3, (data_len / 256) as u8, (data_len % 256) as u8];
    assert(aad@ =~= spec_aad(record.data@.len()));
    let pt = crate::crypto::aes256_gcm_decrypt(key, &nonce, aad.as_slice(), record.data);
    match pt {
        None => None,
        Some(pt) => unwrap_inner_plaintext(pt.as_slice()),
    }
}

/// `n` zero bytes.
pub open spec fn zeros(n: nat) -> Seq<u8> {
    Seq::new(n, |i: int| 0u8)
}

/// Stripping trailing zeros removes exactly the zeros appended to content
/// that does not itself end in zero.
proof fn lemma_strip_zeros(content: Seq<u8>, n: nat)
    requires
        content.len() == 0 || content.last() != 0,
    ensures
        spec_strip_zeros(content + zeros(n)) == content,
    decreases n,
{
    if n == 0 {
        assert(content + zeros(0) =~= content);
        if content.len() > 0 {
            assert(spec_strip_zeros(content) == content);
        }
    } else {
        let s = content + zeros(n);
        assert(s.last() == 0);
        assert(s.drop_last() =~= content + zeros((n - 1) as nat));
        lemma_strip_zeros(content, (n - 1) as nat);
    }
}

/// The inner plaintext of a record reads back its content and type: for
/// content that is empty or ends in a non-zero byte, any number of zero
/// bytes of padding followed by the type byte decode to that content and
/// type.
pub proof fn lemma_inner_plaintext_roundtrip(content: Seq<u8>, n: nat, ty: u8)
    requires
        content.len() == 0 || content.last() != 0,
    ensures
        spec_inner_plaintext(content + zeros(n) + seq![ty]) == Some((content, ty)),
{
    let pt = content + zeros(n) + seq![ty];
    assert(pt.drop_last() =~= content + zeros(n));
    assert(pt.last() == ty);
    lemma_strip_zeros(content, n);
}

/// The first record of a direction (sequence number 0) is protected with
/// the IV itself as nonce.
pub proof fn lemma_nonce_of_first_record(iv: Seq<u8>)
    requires
        iv.len() == 12,
    ensures
        spec_nonce(iv, 0) == iv,
{
    assert forall|i: int| 4 <= i < 12 implies #[trigger] spec_nonce(iv, 0)[i] == iv[i] by {
        let k = (56 - 8 * (i - 4)) as u64;
        let x = iv[i];
        assert(((0u64 >> k) & 0xffu64) as u8 == 0u8) by (bit_vector);
        assert(x ^ 0u8 == x) by (bit_vector);
    }
    assert(spec_nonce(iv, 0) =~= iv);
}

} // verus!
