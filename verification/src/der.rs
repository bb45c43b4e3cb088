//! A minimal ASN.1 DER walker and the X.509 certificate fields that the
//! session checks need: the P-256 public key, the signature, the issuer and
//! subject names and the to-be-signed part.
//!
//! The walker trusts its input as the certificate parser of the proving
//! program does: a header that runs past the end of its buffer has no
//! meaning, so every reading operation requires the header it reads to fit.

use vstd::prelude::*;
use vstd::slice::slice_to_vec;

use crate::encoding::{be_value, lemma_be_value_prefix, lemma_be_value_step};

verus! {

/// The length of a long-form DER length field: the `n` bytes from `start`,
/// read as one big-endian number.
pub open spec fn spec_long_len(d: Seq<u8>, start: int, n: nat) -> nat {
    be_value(d.subrange(start, start + n))
}

/// The TLV whose tag byte sits at `pos`: its tag and the bounds of its value.
/// `None` where the header or the value does not fit in `d`.
pub open spec fn spec_tlv(d: Seq<u8>, pos: int) -> Option<(u8, int, int)> {
    if pos < 0 || pos + 2 > d.len() {
        None
    } else {
        let b = d[pos + 1];
        if b >= 0x80 {
            let n = b - 0x80;
            let start = pos + 2;
            if start + n > d.len() {
                None
            } else {
                let len = spec_long_len(d, start, n as nat);
                if start + n + len > d.len() {
                    None
                } else {
                    Some((d[pos], start + n, start + n + len))
                }
            }
        } else if pos + 2 + b > d.len() {
            None
        } else {
            Some((d[pos], pos + 2, pos + 2 + b))
        }
    }
}

/// A whole TLV fits at `pos`.
pub open spec fn tlv_ok(d: Seq<u8>, pos: int) -> bool {
    spec_tlv(d, pos) is Some
}

/// Where the value of the TLV at `pos` starts.
pub open spec fn tlv_start(d: Seq<u8>, pos: int) -> int {
    spec_tlv(d, pos).unwrap().1
}

/// Where the TLV at `pos` ends (the position just past its value).
pub open spec fn tlv_end(d: Seq<u8>, pos: int) -> int {
    spec_tlv(d, pos).unwrap().2
}

/// The value bytes of the TLV at `pos`.
pub open spec fn tlv_value(d: Seq<u8>, pos: int) -> Seq<u8> {
    d.subrange(tlv_start(d, pos), tlv_end(d, pos))
}

/// Skips the TLV at `pos`, if the walk is still defined.
pub open spec fn spec_skip(d: Seq<u8>, pos: Option<int>) -> Option<int> {
    match pos {
        Some(p) => if tlv_ok(d, p) {
            Some(tlv_end(d, p))
        } else {
            None
        },
        None => None,
    }
}

/// The content of a BIT STRING value: a leading zero "unused bits" byte is
/// dropped, any other first byte is kept.
pub open spec fn spec_bitstring(v: Seq<u8>) -> Seq<u8> {
    if v[0] == 0 {
        v.drop_first()
    } else {
        v
    }
}

/// The fields that a certificate yields.
pub struct CertParts {
    pub point: Seq<u8>,
    pub sig: Seq<u8>,
    pub issuer: Seq<u8>,
    pub subject: Seq<u8>,
    pub tbs: Seq<u8>,
}

/// A BIT STRING TLV at `pos` with a non-empty value.
pub open spec fn bitstring_ok(d: Seq<u8>, pos: int) -> bool {
    tlv_ok(d, pos) && tlv_end(d, pos) > tlv_start(d, pos)
}

/// The walk over a certificate: `None` where the walk has no meaning (a
/// header runs past its buffer), `Some(None)` where the certificate is
/// refused (no SEQUENCE at the top, or a key that is no uncompressed P-256
/// point), `Some(Some(parts))` otherwise.
///
/// The certificate is `SEQUENCE { tbs, sigAlg, sigValue }`; inside `tbs` an
/// optional `[0]` version, then serial, signature algorithm, issuer,
/// validity, subject and the subject public key info, whose content is an
/// algorithm SEQUENCE (holding an OID) and the key BIT STRING.
pub open spec fn spec_parse_cert(der: Seq<u8>) -> Option<Option<CertParts>> {
    if der.len() == 0 {
        None
    } else if der[0] != 0x30 {
        Some(None)
    } else if !tlv_ok(der, 0) {
        None
    } else {
        let cert = tlv_value(der, 0);
        if !tlv_ok(cert, 0) {
            None
        } else {
            let tbs_der = cert.subrange(0, tlv_end(cert, 0));
            if !tlv_ok(tbs_der, 0) {
                None
            } else {
                let tbs = tlv_value(tbs_der, 0);
                if tbs.len() == 0 {
                    None
                } else {
                    let p0: Option<int> = if tbs[0] == 0xa0 {
                        spec_skip(tbs, Some(0))
                    } else {
                        Some(0)
                    };
                    let p1 = spec_skip(tbs, p0);
                    let p2 = spec_skip(tbs, p1);
                    let p3 = spec_skip(tbs, p2);
                    let p4 = spec_skip(tbs, p3);
                    let p5 = spec_skip(tbs, p4);
                    let p6 = spec_skip(tbs, p5);
                    if p6 is None {
                        None
                    } else {
                        let issuer = tlv_value(tbs, p2.unwrap());
                        let subject = tlv_value(tbs, p4.unwrap());
                        let spki = tlv_value(tbs, p5.unwrap());
                        if !tlv_ok(spki, 0) || !tlv_ok(tlv_value(spki, 0), 0) || !bitstring_ok(
                            spki,
                            tlv_end(spki, 0),
                        ) {
                            None
                        } else {
                            let bits = spec_bitstring(tlv_value(spki, tlv_end(spki, 0)));
                            if bits.len() != 65 || bits[0] != 0x04 {
                                Some(None)
                            } else {
                                let c1 = tlv_end(cert, 0);
                                if !tlv_ok(cert, c1) || !bitstring_ok(cert, tlv_end(cert, c1)) {
                                    None
                                } else {
                                    let sig = spec_bitstring(tlv_value(cert, tlv_end(cert, c1)));
                                    Some(
                                        Some(
                                            CertParts {
                                                point: bits.subrange(1, 65),
                                                sig,
                                                issuer,
                                                subject,
                                                tbs: tbs_der,
                                            },
                                        ),
                                    )
                                }
                            }
                        }
                    }
                }
            }
        }
    }
}

/// The uncompressed P-256 point of a certificate key: x then y, 32 bytes
/// each, big-endian.
pub struct CertPubkey {
    pub point: [u8; 64],
}

/// The fields of a parsed certificate, as plain byte sequences.
pub open spec fn cert_parts_view(c: &(CertPubkey, Vec<u8>, Vec<u8>, Vec<u8>, Vec<u8>)) -> CertParts {
    CertParts { point: c.0.point@, sig: c.1@, issuer: c.2@, subject: c.3@, tbs: c.4@ }
}

/// A cursor over a DER buffer.
struct DerReader<'a> {
    data: &'a [u8],
    pos: usize,
}

impl<'a> DerReader<'a> {
    fn new(data: &'a [u8]) -> (r: Self)
        ensures
            r.data@ == data@,
            r.pos == 0,
    {
        Self { data, pos: 0 }
    }

    fn peek_tag(&self) -> (t: u8)
        requires
            self.pos < self.data@.len(),
        ensures
            t == self.data@[self.pos as int],
    {
        self.data[self.pos]
    }

    fn read_tag(&mut self) -> (res: (u8, &'a [u8]))
        requires
            tlv_ok(old(self).data@, old(self).pos as int),
        ensures
            final(self).data@ == old(self).data@,
            final(self).pos == tlv_end(old(self).data@, old(self).pos as int),
            res.0 == spec_tlv(old(self).data@, old(self).pos as int).unwrap().0,
            res.1@ == tlv_value(old(self).data@, old(self).pos as int),
    {
        let (tag, start, end) = match tlv_bounds(self.data, self.pos) {
            Some(t) => t,
            None => (0, 0, 0),
        };
        let val = &self.data[start..end];
        self.pos = end;
        (tag, val)
    }

    fn read_seq(&mut self) -> (r: Self)
        requires
            tlv_ok(old(self).data@, old(self).pos as int),
        ensures
            final(self).data@ == old(self).data@,
            final(self).pos == tlv_end(old(self).data@, old(self).pos as int),
            r.data@ == tlv_value(old(self).data@, old(self).pos as int),
            r.pos == 0,
    {
        let (_, v) = self.read_tag();
        Self::new(v)
    }

    fn read_int(&mut self) -> (v: &'a [u8])
        requires
            tlv_ok(old(self).data@, old(self).pos as int),
        ensures
            final(self).data@ == old(self).data@,
            final(self).pos == tlv_end(old(self).data@, old(self).pos as int),
            v@ == tlv_value(old(self).data@, old(self).pos as int),
    {
        let (_, v) = self.read_tag();
        v
    }

    fn read_bitstring(&mut self) -> (v: &'a [u8])
        requires
            bitstring_ok(old(self).data@, old(self).pos as int),
        ensures
            final(self).data@ == old(self).data@,
            final(self).pos == tlv_end(old(self).data@, old(self).pos as int),
            v@ == spec_bitstring(tlv_value(old(self).data@, old(self).pos as int)),
    {
        let (_, v) = self.read_tag();
        if v[0] == 0 {
            &v[1..v.len()]
        } else {
            v
        }
    }

    fn read_oid(&mut self) -> (v: &'a [u8])
        requires
            tlv_ok(old(self).data@, old(self).pos as int),
        ensures
            final(self).data@ == old(self).data@,
            final(self).pos == tlv_end(old(self).data@, old(self).pos as int),
            v@ == tlv_value(old(self).data@, old(self).pos as int),
    {
        let (_, v) = self.read_tag();
        v
    }

    fn read_explicit_tag(&mut self, expected: u8) -> (r: Self)
        requires
            tlv_ok(old(self).data@, old(self).pos as int),
        ensures
            final(self).data@ == old(self).data@,
            final(self).pos == tlv_end(old(self).data@, old(self).pos as int),
            r.pos == 0,
            r.data@ == (if spec_tlv(old(self).data@, old(self).pos as int).unwrap().0 == expected {
                tlv_value(old(self).data@, old(self).pos as int)
            } else {
                Seq::<u8>::empty()
            }),
    {
        let (tag, v) = self.read_tag();
        if tag == expected {
            Self::new(v)
        } else {
            let empty: &'a [u8] = &[];
            assert(empty@ =~= Seq::<u8>::empty());
            Self::new(empty)
        }
    }

    /// Reads a TLV and returns the whole of it, header included.
    fn read_tlv(&mut self) -> (t: &'a [u8])
        requires
            tlv_ok(old(self).data@, old(self).pos as int),
        ensures
            final(self).data@ == old(self).data@,
            final(self).pos == tlv_end(old(self).data@, old(self).pos as int),
            t@ == old(self).data@.subrange(
                old(self).pos as int,
                tlv_end(old(self).data@, old(self).pos as int),
            ),
    {
        let start = self.pos;
        self.read_tag();
        &self.data[start..self.pos]
    }
}

/// Copies the 64 point bytes that follow the 0x04 prefix of an uncompressed
/// point.
fn point_from_bits(bits: &[u8]) -> (p: CertPubkey)
    requires
        bits@.len() == 65,
    ensures
        p.point@ == bits@.subrange(1, 65),
{
    let mut point = [0u8; 64];
    let mut i: usize = 0;
    while i < 64
        invariant
            bits@.len() == 65,
            i <= 64,
            point@.len() == 64,
            forall|j: int| 0 <= j < i ==> point@[j] == bits@[j + 1],
        decreases 64 - i,
    {
        point[i] = bits[i + 1];
        i += 1;
    }
    assert(point@ =~= bits@.subrange(1, 65));
    CertPubkey { point }
}

/// Extracts the P-256 key, signature, issuer, subject and to-be-signed bytes
/// of a DER certificate; `None` where the certificate is no SEQUENCE or its
/// key is no uncompressed P-256 point.
pub fn parse_cert(der: &[u8]) -> (res: Option<(CertPubkey, Vec<u8>, Vec<u8>, Vec<u8>, Vec<u8>)>)
    requires
        spec_parse_cert(der@) is Some,
    ensures
        match spec_parse_cert(der@).unwrap() {
            None => res is None,
            Some(parts) => res is Some && cert_parts_view(&res.unwrap()) == parts,
        },
{
    let mut outer = DerReader::new(der);
    if outer.peek_tag() != 0x30 {
        return None;
    }
    let mut cert = outer.read_seq();
    let tbs_der = cert.read_tlv();
    let tbs_outer = DerReader::new(tbs_der);
    let mut tbs_outer = tbs_outer;
    let mut tbs = tbs_outer.read_seq();
    let ghost t = tbs.data@;
    if tbs.peek_tag() == 0xa0 {
        tbs.read_explicit_tag(0xa0);
    }
    let _serial = tbs.read_int();
    let _sig_algo = tbs.read_seq();
    let issuer_der = tbs.read_tag().1;
    let _validity = tbs.read_tag();
    let subject_der = tbs.read_tag().1;
    let spki_der = tbs.read_tag().1;
    let mut spki = DerReader::new(spki_der);
    let mut algo_seq = spki.read_seq();
    let _oid = algo_seq.read_oid();
    let point_bits = spki.read_bitstring();
    if point_bits.len() != 65 || point_bits[0] != 0x04 {
        return None;
    }
    let pubkey = point_from_bits(point_bits);
    let _sig_algo2 = cert.read_seq();
    let sig_value = cert.read_bitstring();
    Some((
        pubkey,
        slice_to_vec(sig_value),
        slice_to_vec(issuer_der),
        slice_to_vec(subject_der),
        slice_to_vec(tbs_der),
    ))
}

/// The tag and value bounds of the TLV at `pos`, or `None` where it does not
/// fit in `d` (a length larger than the bytes that remain is refused).
pub(crate) fn tlv_bounds(d: &[u8], pos: usize) -> (r: Option<(u8, usize, usize)>)
    ensures
        (r is None) == (spec_tlv(d@, pos as int) is None),
        r is Some ==> ({
            let (t, s, e) = r.unwrap();
            &&& spec_tlv(d@, pos as int) == Some((t, s as int, e as int))
            &&& s <= e <= d@.len()
        }),
{
    if pos >= d.len() || d.len() - pos < 2 {
        return None;
    }
    let b = d[pos + 1];
    if b >= 0x80 {
        let n = (b - 0x80) as usize;
        let start = pos + 2;
        if n > d.len() - start {
            return None;
        }
        let limit = d.len() - (start + n);
        let ghost lenbytes = d@.subrange(start as int, start + n);
        let mut l: usize = 0;
        let mut i: usize = 0;
        while i < n
            invariant
                start == pos + 2,
                pos + 2 <= d.len(),
                b == d@[pos + 1],
                b >= 0x80,
                n == b - 0x80,
                start + n <= d.len(),
                limit == d.len() - (start + n),
                lenbytes == d@.subrange(start as int, start + n),
                i <= n,
                l == be_value(lenbytes.subrange(0, i as int)),
                l <= limit,
            decreases n - i,
        {
            proof {
                lemma_be_value_step(lenbytes, i as int);
                lemma_be_value_prefix(lenbytes, i + 1);
                assert(lenbytes[i as int] == d@[start + i]);
            }
            let byte = d[start + i] as usize;
            if l > limit / 256 {
                assert(l * 256 > limit) by (nonlinear_arith)
                    requires
                        l > limit / 256,
                ;
                assert(spec_long_len(d@, start as int, n as nat) > limit) by {
                    assert(lenbytes.subrange(0, n as int) =~= lenbytes);
                }
                return None;
            }
            assert(l * 256 <= limit) by (nonlinear_arith)
                requires
                    l <= limit / 256,
            ;
            let m = l * 256;
            if byte > limit - m {
                assert(lenbytes.subrange(0, n as int) =~= lenbytes);
                return None;
            }
            l = m + byte;
            i += 1;
        }
        assert(lenbytes.subrange(0, n as int) =~= lenbytes);
        Some((d[pos], start + n, start + n + l))
    } else {
        let l = b as usize;
        if l > d.len() - (pos + 2) {
            return None;
        }
        Some((d[pos], pos + 2, pos + 2 + l))
    }
}

/// A machine position as a mathematical one.
spec fn opt_int(p: Option<usize>) -> Option<int> {
    match p {
        Some(q) => Some(q as int),
        None => None,
    }
}

/// Skips the TLV at `pos` where it fits.
fn skip_checked(d: &[u8], pos: Option<usize>) -> (r: Option<usize>)
    ensures
        opt_int(r) == spec_skip(d@, opt_int(pos)),
{
    match pos {
        None => None,
        Some(p) => match tlv_bounds(d, p) {
            None => None,
            Some((_, _, e)) => Some(e),
        },
    }
}

/// The position of the subject public key info inside `tbs`, where the
/// seven skips of the walk over the to-be-signed fields all fit.
fn tbs_walk(tbs: &[u8]) -> (r: Option<usize>)
    requires
        tbs@.len() > 0,
    ensures
        ({
            let p0: Option<int> = if tbs@[0] == 0xa0 {
                spec_skip(tbs@, Some(0))
            } else {
                Some(0)
            };
            let p5 = spec_skip(tbs@, spec_skip(tbs@, spec_skip(tbs@, spec_skip(tbs@, spec_skip(tbs@, p0)))));
            let p6 = spec_skip(tbs@, p5);
            &&& (r is Some <==> p6 is Some)
            &&& (r is Some ==> opt_int(r) == p5)
        }),
{
    let p0 = if tbs[0] == 0xa0 {
        skip_checked(tbs, Some(0))
    } else {
        Some(0)
    };
    assert(opt_int(Some(0usize)) == Some(0int));
    let p1 = skip_checked(tbs, p0);
    let p2 = skip_checked(tbs, p1);
    let p3 = skip_checked(tbs, p2);
    let p4 = skip_checked(tbs, p3);
    let p5 = skip_checked(tbs, p4);
    let p6 = skip_checked(tbs, p5);
    if p6.is_none() {
        None
    } else {
        assert(opt_int(p6) is Some);
        p5
    }
}

/// Walks the subject public key info: `None` where a header does not fit,
/// otherwise whether the key is an uncompressed P-256 point.
fn key_walk(spki: &[u8]) -> (r: Option<bool>)
    ensures
        (r is None) == (!tlv_ok(spki@, 0) || !tlv_ok(tlv_value(spki@, 0), 0) || !bitstring_ok(
            spki@,
            tlv_end(spki@, 0),
        )),
        r is Some ==> ({
            let bits = spec_bitstring(tlv_value(spki@, tlv_end(spki@, 0)));
            r.unwrap() == (bits.len() == 65 && bits[0] == 0x04)
        }),
{
    let (_, algs, alge) = match tlv_bounds(spki, 0) {
        None => return None,
        Some(t) => t,
    };
    if tlv_bounds(&spki[algs..alge], 0).is_none() {
        return None;
    }
    let (_, bs, be) = match tlv_bounds(spki, alge) {
        None => return None,
        Some(t) => t,
    };
    if be <= bs {
        return None;
    }
    let v = &spki[bs..be];
    let bits = if v[0] == 0 {
        &v[1..v.len()]
    } else {
        v
    };
    assert(bits@ == spec_bitstring(v@));
    Some(bits.len() == 65 && bits[0] == 0x04)
}

/// Whether the signature algorithm and the signature BIT STRING that follow
/// the to-be-signed part fit in `cert`.
fn sig_walk(cert: &[u8]) -> (ok: bool)
    requires
        tlv_ok(cert@, 0),
    ensures
        ok == (tlv_ok(cert@, tlv_end(cert@, 0)) && bitstring_ok(
            cert@,
            tlv_end(cert@, tlv_end(cert@, 0)),
        )),
{
    let (_, _, c1) = match tlv_bounds(cert, 0) {
        None => return false,
        Some(t) => t,
    };
    let (_, _, c2) = match tlv_bounds(cert, c1) {
        None => return false,
        Some(t) => t,
    };
    match tlv_bounds(cert, c2) {
        None => false,
        Some((_, s, e)) => e > s,
    }
}

/// Whether the walk over a certificate that [`parse_cert`] makes has a
/// meaning, that is whether every header it reads fits its buffer.
pub fn cert_walk_defined(der: &[u8]) -> (ok: bool)
    ensures
        ok == (spec_parse_cert(der@) is Some),
{
    if der.len() == 0 {
        return false;
    }
    if der[0] != 0x30 {
        return true;
    }
    let (_, cs, ce) = match tlv_bounds(der, 0) {
        None => return false,
        Some(t) => t,
    };
    let cert = &der[cs..ce];
    let (_, _, te) = match tlv_bounds(cert, 0) {
        None => return false,
        Some(t) => t,
    };
    let tbs_der = &cert[0..te];
    let (_, ts, tee) = match tlv_bounds(tbs_der, 0) {
        None => return false,
        Some(t) => t,
    };
    let tbs = &tbs_der[ts..tee];
    if tbs.len() == 0 {
        return false;
    }
    let p5 = match tbs_walk(tbs) {
        None => return false,
        Some(p) => p,
    };
    let (_, ss, se) = match tlv_bounds(tbs, p5) {
        None => return false,
        Some(t) => t,
    };
    let spki = &tbs[ss..se];
    match key_walk(spki) {
        None => false,
        Some(false) => true,
        Some(true) => sig_walk(cert),
    }
}

/// Parses a certificate where the walk over it has a meaning: `None` where
/// a header runs past its buffer, otherwise what [`parse_cert`] returns.
pub fn try_parse_cert(der: &[u8]) -> (res: Option<Option<(CertPubkey, Vec<u8>, Vec<u8>, Vec<u8>, Vec<u8>)>>)
    ensures
        match spec_parse_cert(der@) {
            None => res is None,
            Some(None) => res == Some(None::<(CertPubkey, Vec<u8>, Vec<u8>, Vec<u8>, Vec<u8>)>),
            Some(Some(parts)) => res matches Some(Some(c)) && cert_parts_view(&c) == parts,
        },
{
    if cert_walk_defined(der) {
        Some(parse_cert(der))
    } else {
        None
    }
}

} // verus!
