//! Locating the SubjectPublicKeyInfo of a DER certificate, header included,
//! so that its hash can pin the root of a certificate chain.

use vstd::prelude::*;
use vstd::slice::slice_to_vec;

use crate::der::{spec_long_len, spec_skip, spec_tlv, tlv_bounds, tlv_end, tlv_ok, tlv_start};

verus! {

/// Skipping the TLV at `pos`: the position just past it, or `None` where it
/// does not fit in `d` (its declared length, read as a whole number, runs
/// past the bytes that remain).
pub open spec fn spec_skip_tlv(d: Seq<u8>, pos: int) -> Option<int> {
    if pos < 0 || pos >= d.len() || pos + 1 >= d.len() {
        None
    } else {
        let b = d[pos + 1];
        if b >= 0x80 {
            let n = b - 0x80;
            let p = pos + 2;
            if p + n > d.len() {
                None
            } else {
                let len = spec_long_len(d, p, n as nat);
                if p + n + len > d.len() {
                    None
                } else {
                    Some(p + n + len)
                }
            }
        } else if pos + 2 + b > d.len() {
            None
        } else {
            Some(pos + 2 + b)
        }
    }
}

/// Skipping a TLV that must carry `tag`.
pub open spec fn spec_expect(d: Seq<u8>, pos: int, tag: u8) -> Option<int> {
    if pos < 0 || pos >= d.len() || d[pos] != tag {
        None
    } else {
        spec_skip_tlv(d, pos)
    }
}

/// Continues a walk with `f` from the position it reached.
pub open spec fn then_at(r: Option<int>, f: spec_fn(int) -> Option<int>) -> Option<int> {
    match r {
        Some(p) => f(p),
        None => None,
    }
}

/// The position just past the tag and length bytes of the TLV at 0.
pub open spec fn header_end(d: Seq<u8>) -> int {
    if d[1] >= 0x80 {
        2 + (d[1] - 0x80)
    } else {
        2
    }
}

/// Where the SubjectPublicKeyInfo TLV lies in a to-be-signed SEQUENCE (the
/// bounds of the whole TLV), walking past the optional `[0]` version, the
/// serial INTEGER, the algorithm SEQUENCE, the issuer, the validity SEQUENCE
/// and the subject.
pub open spec fn spec_spki_range(tbs: Seq<u8>) -> Option<(int, int)> {
    let t0 = header_end(tbs);
    let r0 = if t0 < tbs.len() && tbs[t0] == 0xa0 {
        spec_skip_tlv(tbs, t0)
    } else {
        Some(t0)
    };
    let r1 = then_at(r0, |t: int| spec_expect(tbs, t, 0x02));
    let r2 = then_at(r1, |t: int| spec_expect(tbs, t, 0x30));
    let r3 = then_at(r2, |t: int| spec_skip_tlv(tbs, t));
    let r4 = then_at(r3, |t: int| spec_expect(tbs, t, 0x30));
    let r5 = then_at(r4, |t: int| spec_skip_tlv(tbs, t));
    match r5 {
        None => None,
        Some(s) => match spec_expect(tbs, s, 0x30) {
            None => None,
            Some(e) => Some((s, e)),
        },
    }
}

/// The SubjectPublicKeyInfo of a certificate, header included, or `None`
/// where the certificate is not laid out as expected or cannot be walked.
pub open spec fn spec_extract_spki(der: Seq<u8>) -> Option<Seq<u8>> {
    if der.len() == 0 || der[0] != 0x30 {
        None
    } else {
        match spec_skip_tlv(der, 0) {
            None => None,
            Some(cert_end) => {
                let cert = der.subrange(0, cert_end);
                let inner = header_end(cert);
                if inner >= cert.len() || cert[inner] != 0x30 {
                    None
                } else {
                    match spec_skip_tlv(cert, inner) {
                        None => None,
                        Some(tbs_end) => {
                            let tbs = cert.subrange(inner, tbs_end);
                            match spec_spki_range(tbs) {
                                None => None,
                                Some((s, e)) => Some(tbs.subrange(s, e)),
                            }
                        },
                    }
                }
            },
        }
    }
}

/// Skips the TLV at `*pos`, leaving `*pos` just past it; `None` (with
/// `*pos` left anywhere) where it does not fit.
fn skip_tlv(pos: &mut usize, data: &[u8]) -> (res: Option<()>)
    ensures
        match spec_skip_tlv(data@, *old(pos) as int) {
            None => res is None,
            Some(p) => res is Some && *final(pos) == p,
        },
{
    proof {
        lemma_skip_agrees_with_read(data@, *pos as int);
    }
    match tlv_bounds(data, *pos) {
        None => None,
        Some((_, _, end)) => {
            *pos = end;
            Some(())
        },
    }
}

/// Moves `t` past the tag and length bytes of the TLV at the start of `d`.
fn skip_header(d: &[u8]) -> (t: usize)
    requires
        2 <= d@.len(),
    ensures
        t == header_end(d@),
{
    let mut t: usize = 1;
    if d[t] & 0x80 != 0 {
        let b = d[t];
        assert((b & 0x80u8) != 0u8 ==> b >= 0x80u8) by (bit_vector);
        assert(b >= 0x80u8 ==> (b & 0x7fu8) == b - 0x80u8) by (bit_vector);
        t += 1 + (d[t] & 0x7f) as usize;
    } else {
        let b = d[t];
        assert((b & 0x80u8) == 0u8 ==> b < 0x80u8) by (bit_vector);
        t += 1;
    }
    t
}

/// The SubjectPublicKeyInfo TLV of a to-be-signed SEQUENCE.
fn spki_in_tbs(tbs: &[u8]) -> (res: Option<&[u8]>)
    requires
        2 <= tbs@.len(),
    ensures
        match spec_spki_range(tbs@) {
            None => res is None,
            Some((s, e)) => res is Some && res.unwrap()@ == tbs@.subrange(s, e),
        },
{
    let ghost tb = tbs@;
    let mut t = skip_header(tbs);
    let ghost r0 = if header_end(tb) < tb.len() && tb[header_end(tb)] == 0xa0 {
        spec_skip_tlv(tb, header_end(tb))
    } else {
        Some(header_end(tb))
    };
    let ghost r1 = then_at(r0, |t: int| spec_expect(tb, t, 0x02));
    let ghost r2 = then_at(r1, |t: int| spec_expect(tb, t, 0x30));
    let ghost r3 = then_at(r2, |t: int| spec_skip_tlv(tb, t));
    let ghost r4 = then_at(r3, |t: int| spec_expect(tb, t, 0x30));
    let ghost r5 = then_at(r4, |t: int| spec_skip_tlv(tb, t));
    if t < tbs.len() && tbs[t] == 0xa0 {
        skip_tlv(&mut t, tbs)?;
    }
    assert(r0 == Some(t as int));
    if t >= tbs.len() || tbs[t] != 0x02 {
        return None;
    }
    skip_tlv(&mut t, tbs)?;
    assert(r1 == Some(t as int));
    if t >= tbs.len() || tbs[t] != 0x30 {
        return None;
    }
    skip_tlv(&mut t, tbs)?;
    assert(r2 == Some(t as int));
    if t >= tbs.len() {
        return None;
    }
    skip_tlv(&mut t, tbs)?;
    assert(r3 == Some(t as int));
    if t >= tbs.len() || tbs[t] != 0x30 {
        return None;
    }
    skip_tlv(&mut t, tbs)?;
    assert(r4 == Some(t as int));
    if t >= tbs.len() {
        return None;
    }
    skip_tlv(&mut t, tbs)?;
    assert(r5 == Some(t as int));
    if t >= tbs.len() || tbs[t] != 0x30 {
        return None;
    }
    let spki_start = t;
    skip_tlv(&mut t, tbs)?;
    Some(&tbs[spki_start..t])
}

/// Extracts the full SubjectPublicKeyInfo (its SEQUENCE tag and length
/// included) of a certificate; `None` where the certificate cannot be
/// walked.
pub fn extract_spki_der_host(der: &[u8]) -> (res: Option<Vec<u8>>)
    ensures
        match spec_extract_spki(der@) {
            None => res is None,
            Some(spki) => res is Some && res.unwrap()@ == spki,
        },
{
    let mut pos: usize = 0;
    if pos >= der.len() || der[pos] != 0x30 {
        return None;
    }
    let cert_start = pos;
    skip_tlv(&mut pos, der)?;
    let cert = &der[cert_start..pos];
    if 1 >= cert.len() {
        return None;
    }
    let mut inner = skip_header(cert);
    if inner >= cert.len() || cert[inner] != 0x30 {
        return None;
    }
    let tbs_start = inner;
    skip_tlv(&mut inner, cert)?;
    let tbs = &cert[tbs_start..inner];
    if 1 >= tbs.len() {
        return None;
    }
    let spki = spki_in_tbs(tbs)?;
    Some(slice_to_vec(spki))
}

/// The two DER walkers agree: skipping a TLV ends where reading it ends,
/// and a TLV that reads is skipped to its end.
pub proof fn lemma_skip_agrees_with_read(d: Seq<u8>, pos: int)
    ensures
        spec_skip_tlv(d, pos) matches Some(e) ==> tlv_ok(d, pos) && tlv_end(d, pos) == e
            && spec_tlv(d, pos).unwrap().0 == d[pos],
        tlv_ok(d, pos) ==> spec_skip_tlv(d, pos) == Some(tlv_end(d, pos)),
{
}

/// A DER header in short form frames the value that follows it: for a
/// value shorter than 128 bytes, the TLV at the start of tag, length, value
/// and anything after reads that tag and exactly that value.
pub proof fn lemma_short_tlv(tag: u8, v: Seq<u8>, rest: Seq<u8>)
    requires
        v.len() < 128,
    ensures
        ({
            let d = seq![tag, v.len() as u8] + v + rest;
            spec_tlv(d, 0) == Some((tag, 2int, 2 + v.len() as int)) && d.subrange(2, 2 + v.len() as int) == v
        }),
{
    let d = seq![tag, v.len() as u8] + v + rest;
    assert(d[0] == tag);
    assert(d[1] == v.len() as u8);
    assert(d.subrange(2, 2 + v.len() as int) =~= v);
}

/// The fields of a to-be-signed SEQUENCE as the certificate reader frames
/// them: field 0 starts where the SEQUENCE's value starts, past an optional
/// `[0]` version; each next field starts where the one before ends.
pub open spec fn tbs_field(tbs: Seq<u8>, i: nat) -> Option<int>
    decreases i,
{
    if i == 0 {
        let s = tlv_start(tbs, 0);
        if s < tbs.len() && tbs[s] == 0xa0 {
            spec_skip(tbs, Some(s))
        } else {
            Some(s)
        }
    } else {
        spec_skip(tbs, tbs_field(tbs, (i - 1) as nat))
    }
}

/// The key info walk finds the key info of any well-formed to-be-signed
/// SEQUENCE, whatever the length of its header: where the SEQUENCE's
/// header frames it and its fields (serial INTEGER, algorithm SEQUENCE,
/// issuer, validity SEQUENCE, subject, key info SEQUENCE) follow each other
/// as the certificate reader frames them, the range found is exactly the
/// sixth field, the SubjectPublicKeyInfo TLV.
pub proof fn lemma_spki_range_of_tbs(tbs: Seq<u8>)
    requires
        tlv_ok(tbs, 0),
        tbs_field(tbs, 6) is Some,
        tbs[tbs_field(tbs, 0).unwrap()] == 0x02,
        tbs[tbs_field(tbs, 1).unwrap()] == 0x30,
        tbs[tbs_field(tbs, 3).unwrap()] == 0x30,
        tbs[tbs_field(tbs, 5).unwrap()] == 0x30,
    ensures
        spec_spki_range(tbs) == Some((tbs_field(tbs, 5).unwrap(), tbs_field(tbs, 6).unwrap())),
{
    let f0 = tbs_field(tbs, 0);
    let f1 = tbs_field(tbs, 1);
    let f2 = tbs_field(tbs, 2);
    let f3 = tbs_field(tbs, 3);
    let f4 = tbs_field(tbs, 4);
    let f5 = tbs_field(tbs, 5);
    let f6 = tbs_field(tbs, 6);
    assert(f6 is Some ==> f5 is Some);
    assert(f5 is Some ==> f4 is Some);
    assert(f4 is Some ==> f3 is Some);
    assert(f3 is Some ==> f2 is Some);
    assert(f2 is Some ==> f1 is Some);
    assert(f1 is Some ==> f0 is Some);
    let t0 = header_end(tbs);
    assert(t0 == tlv_start(tbs, 0));
    if t0 < tbs.len() && tbs[t0] == 0xa0 {
        lemma_skip_agrees_with_read(tbs, t0);
    }
    let r0 = if t0 < tbs.len() && tbs[t0] == 0xa0 {
        spec_skip_tlv(tbs, t0)
    } else {
        Some(t0)
    };
    assert(r0 == f0);
    let p0 = f0.unwrap();
    lemma_skip_agrees_with_read(tbs, p0);
    let r1 = then_at(r0, |t: int| spec_expect(tbs, t, 0x02));
    assert(r1 == f1);
    let p1 = f1.unwrap();
    lemma_skip_agrees_with_read(tbs, p1);
    let r2 = then_at(r1, |t: int| spec_expect(tbs, t, 0x30));
    assert(r2 == f2);
    let p2 = f2.unwrap();
    lemma_skip_agrees_with_read(tbs, p2);
    let r3 = then_at(r2, |t: int| spec_skip_tlv(tbs, t));
    assert(r3 == f3);
    let p3 = f3.unwrap();
    lemma_skip_agrees_with_read(tbs, p3);
    let r4 = then_at(r3, |t: int| spec_expect(tbs, t, 0x30));
    assert(r4 == f4);
    let p4 = f4.unwrap();
    lemma_skip_agrees_with_read(tbs, p4);
    let r5 = then_at(r4, |t: int| spec_skip_tlv(tbs, t));
    assert(r5 == f5);
    let p5 = f5.unwrap();
    lemma_skip_agrees_with_read(tbs, p5);
    assert(spec_expect(tbs, p5, 0x30) == f6);
}

/// A well-formed to-be-signed SEQUENCE: its header frames it and its
/// fields follow each other with the tags the key info walk expects.
pub open spec fn tbs_well_formed(tbs: Seq<u8>) -> bool {
    &&& tlv_ok(tbs, 0)
    &&& tbs_field(tbs, 6) is Some
    &&& tbs[tbs_field(tbs, 0).unwrap()] == 0x02
    &&& tbs[tbs_field(tbs, 1).unwrap()] == 0x30
    &&& tbs[tbs_field(tbs, 3).unwrap()] == 0x30
    &&& tbs[tbs_field(tbs, 5).unwrap()] == 0x30
}

/// Extraction finds the key info of any certificate laid out as a
/// SEQUENCE whose value starts with a well-formed to-be-signed SEQUENCE,
/// whatever the lengths of the two headers: the result is exactly the
/// SubjectPublicKeyInfo TLV of the to-be-signed part.
pub proof fn lemma_extract_spki_of_certificate(der: Seq<u8>)
    requires
        der.len() > 0,
        der[0] == 0x30,
        tlv_ok(der, 0),
        ({
            let cert = der.subrange(0, tlv_end(der, 0));
            let inner = tlv_start(cert, 0);
            &&& tlv_ok(cert, 0)
            &&& inner < cert.len()
            &&& cert[inner] == 0x30
            &&& tlv_ok(cert, inner)
            &&& tbs_well_formed(cert.subrange(inner, tlv_end(cert, inner)))
        }),
    ensures
        ({
            let cert = der.subrange(0, tlv_end(der, 0));
            let inner = tlv_start(cert, 0);
            let tbs = cert.subrange(inner, tlv_end(cert, inner));
            spec_extract_spki(der) == Some(
                tbs.subrange(tbs_field(tbs, 5).unwrap(), tbs_field(tbs, 6).unwrap()),
            )
        }),
{
    lemma_skip_agrees_with_read(der, 0);
    let cert = der.subrange(0, tlv_end(der, 0));
    let inner = tlv_start(cert, 0);
    assert(header_end(cert) == inner);
    lemma_skip_agrees_with_read(cert, inner);
    let tbs = cert.subrange(inner, tlv_end(cert, inner));
    lemma_spki_range_of_tbs(tbs);
}

} // verus!
