//! Checking the server's side of a TLS 1.3 session: every certificate of the
//! chain signed by the next one, the root pinned by the hash of its public
//! key info, and a CertificateVerify message among the handshake messages.

use vstd::prelude::*;
use vstd::slice::slice_to_vec;
use vstd::string::*;
use vstd::utf8::*;

use crate::crypto::{
    push_all, sha256_digest, sha256_hash, sha384_digest, sha384_hash, spec_ecdsa_p256_valid,
    verify_ecdsa_p256,
};
use crate::der::{parse_cert, spec_parse_cert, try_parse_cert};
use crate::spki::{extract_spki_der_host, spec_extract_spki};
use crate::tls_record::HANDSHAKE_TYPE_CERTIFICATE_VERIFY;

verus! {

/// The byte views of a list of buffers.
pub open spec fn views(v: Seq<Vec<u8>>) -> Seq<Seq<u8>> {
    v.map_values(|b: Vec<u8>| b@)
}

/// The links of a chain from certificate `i` on: each certificate must parse
/// and, where its issuer (the next certificate) carries a P-256 key, carry a
/// signature of its to-be-signed part that this key verifies. An issuer
/// without such a key is passed over. `None` where a certificate that the
/// check reads cannot be walked.
pub open spec fn spec_chain_links_from(certs: Seq<Seq<u8>>, i: int) -> Option<bool>
    decreases certs.len() - i,
{
    if i < 0 || i + 1 >= certs.len() {
        Some(true)
    } else {
        match spec_parse_cert(certs[i]) {
            None => None,
            Some(None) => Some(false),
            Some(Some(c)) => match spec_parse_cert(certs[i + 1]) {
                None => None,
                Some(None) => spec_chain_links_from(certs, i + 1),
                Some(Some(n)) => if !spec_ecdsa_p256_valid(c.tbs, c.sig, n.point) {
                    Some(false)
                } else {
                    spec_chain_links_from(certs, i + 1)
                },
            },
        }
    }
}

/// The verdict on a certificate chain (leaf first) pinned to a root whose
/// SubjectPublicKeyInfo hashes (SHA-256) to `root_hash`.
pub open spec fn spec_verify_cert_chain(certs: Seq<Seq<u8>>, root_hash: Seq<u8>) -> Option<bool> {
    if certs.len() == 0 {
        Some(false)
    } else {
        match spec_chain_links_from(certs, 0) {
            None => None,
            Some(false) => Some(false),
            Some(true) => match spec_extract_spki(certs.last()) {
                None => Some(false),
                Some(spki) => Some(sha256_digest(spki) == root_hash),
            },
        }
    }
}

/// Two byte strings are equal.
fn bytes_eq(a: &[u8], b: &[u8]) -> (eq: bool)
    ensures
        eq == (a@ == b@),
{
    if a.len() != b.len() {
        return false;
    }
    let mut i: usize = 0;
    while i < a.len()
        invariant
            a@.len() == b@.len(),
            i <= a@.len(),
            forall|j: int| 0 <= j < i ==> a@[j] == b@[j],
        decreases a@.len() - i,
    {
        if a[i] != b[i] {
            return false;
        }
        i += 1;
    }
    assert(a@ =~= b@);
    true
}

/// Verifies a certificate chain (leaf first): each certificate is signed by
/// the next one where that one has a P-256 key, and the last one's
/// SubjectPublicKeyInfo hashes to `expected_root_spki_hash`.
pub fn verify_cert_chain(certs: &[Vec<u8>], expected_root_spki_hash: &[u8; 32]) -> (ok: bool)
    requires
        spec_verify_cert_chain(views(certs@), expected_root_spki_hash@) is Some,
    ensures
        ok == spec_verify_cert_chain(views(certs@), expected_root_spki_hash@).unwrap(),
{
    let ghost cs = views(certs@);
    if certs.len() == 0 {
        return false;
    }
    let mut i: usize = 0;
    while i < certs.len() - 1
        invariant
            cs == views(certs@),
            certs@.len() > 0,
            i <= certs@.len() - 1,
            spec_chain_links_from(cs, 0) == spec_chain_links_from(cs, i as int),
            spec_chain_links_from(cs, i as int) is Some,
        decreases certs@.len() - i,
    {
        assert(cs[i as int] == certs@[i as int]@);
        assert(cs[i + 1] == certs@[i + 1]@);
        let (_pubkey, sig, _issuer, _subject, tbs) = match parse_cert(certs[i].as_slice()) {
            Some(v) => v,
            None => return false,
        };
        let (next_pubkey, _, _, _, _) = match parse_cert(certs[i + 1].as_slice()) {
            Some(v) => v,
            None => {
                i += 1;
                continue;
            },
        };
        if !verify_ecdsa_p256(tbs.as_slice(), sig.as_slice(), &next_pubkey.point) {
            return false;
        }
        i += 1;
    }
    let last = certs.len() - 1;
    assert(cs.last() == certs@[last as int]@);
    match extract_spki_der_host(certs[last].as_slice()) {
        Some(root_spki) => {
            let root_hash = sha256_hash(root_spki.as_slice());
            bytes_eq(root_hash.as_slice(), expected_root_spki_hash.as_slice())
        },
        None => false,
    }
}

/// Verifies a certificate chain on every input: `None` where a certificate
/// that the check reads cannot be walked, otherwise what
/// [`verify_cert_chain`] returns.
pub fn try_verify_cert_chain(certs: &[Vec<u8>], expected_root_spki_hash: &[u8; 32]) -> (r: Option<
    bool,
>)
    requires
    ensures
        r == spec_verify_cert_chain(views(certs@), expected_root_spki_hash@),
{
    let ghost cs = views(certs@);
    if certs.len() == 0 {
        return Some(false);
    }
    let mut i: usize = 0;
    while i < certs.len() - 1
        invariant
            cs == views(certs@),
            certs@.len() > 0,
            i <= certs@.len() - 1,
            spec_chain_links_from(cs, 0) == spec_chain_links_from(cs, i as int),
        decreases certs@.len() - i,
    {
        assert(cs[i as int] == certs@[i as int]@);
        assert(cs[i + 1] == certs@[i + 1]@);
        let (_pubkey, sig, _issuer, _subject, tbs) = match try_parse_cert(certs[i].as_slice()) {
            None => return None,
            Some(None) => return Some(false),
            Some(Some(v)) => v,
        };
        let (next_pubkey, _, _, _, _) = match try_parse_cert(certs[i + 1].as_slice()) {
            None => return None,
            Some(None) => {
                i += 1;
                continue;
            },
            Some(Some(v)) => v,
        };
        if !verify_ecdsa_p256(tbs.as_slice(), sig.as_slice(), &next_pubkey.point) {
            return Some(false);
        }
        i += 1;
    }
    let last = certs.len() - 1;
    assert(cs.last() == certs@[last as int]@);
    match extract_spki_der_host(certs[last].as_slice()) {
        None => Some(false),
        Some(root_spki) => {
            let root_hash = sha256_hash(root_spki.as_slice());
            Some(bytes_eq(root_hash.as_slice(), expected_root_spki_hash.as_slice()))
        },
    }
}

/// The handshake messages framed in `r` from byte `off` on, each whole (a
/// type byte, a 24-bit big-endian length, the body); framing stops at the
/// first message that does not fit.
pub open spec fn spec_messages_from(r: Seq<u8>, off: int) -> Seq<Seq<u8>>
    decreases r.len() - off,
{
    if off < 0 || off + 4 > r.len() {
        seq![]
    } else {
        let len = r[off + 1] as int * 65536 + r[off + 2] as int * 256 + r[off + 3] as int;
        if off + 4 + len > r.len() {
            seq![]
        } else {
            seq![r.subrange(off, off + 4 + len)] + spec_messages_from(r, off + 4 + len)
        }
    }
}

/// The handshake messages of a sequence of handshake records, in order.
pub open spec fn spec_all_messages(records: Seq<Seq<u8>>) -> Seq<Seq<u8>>
    decreases records.len(),
{
    if records.len() == 0 {
        seq![]
    } else {
        spec_all_messages(records.drop_last()) + spec_messages_from(records.last(), 0)
    }
}

/// The bytes "TLS 1.3, server CertificateVerify".
pub open spec fn cv_context() -> Seq<u8> {
    encode_utf8("TLS 1.3, server CertificateVerify"@)
}

/// What a server's CertificateVerify signs (RFC 8446, 4.4.3): 64 spaces,
/// the context string, a zero byte and the transcript hash.
pub open spec fn cv_content(transcript_hash: Seq<u8>) -> Seq<u8> {
    Seq::new(64, |i: int| 0x20u8) + cv_context() + seq![0u8] + transcript_hash
}

/// A CertificateVerify message `m` holds an ECDSA P-256 / SHA-256
/// signature (scheme 0x0403, its length filling the body) of the content
/// for the SHA-384 transcript hash of `transcript`, under key `point`.
pub open spec fn cv_valid(m: Seq<u8>, transcript: Seq<u8>, point: Seq<u8>) -> bool {
    let body = m.subrange(4, m.len() as int);
    &&& body.len() >= 4
    &&& body[0] == 4 && body[1] == 3
    &&& body[2] as int * 256 + body[3] as int == body.len() - 4
    &&& spec_ecdsa_p256_valid(
        cv_content(sha384_digest(transcript)),
        body.subrange(4, body.len() as int),
        point,
    )
}

/// The first CertificateVerify among `msgs` verifies, the transcript being
/// `transcript` followed by the messages before it; false where there is
/// none.
pub open spec fn spec_cv_check(msgs: Seq<Seq<u8>>, transcript: Seq<u8>, point: Seq<u8>) -> bool
    decreases msgs.len(),
{
    if msgs.len() == 0 {
        false
    } else if msgs[0][0] == HANDSHAKE_TYPE_CERTIFICATE_VERIFY {
        cv_valid(msgs[0], transcript, point)
    } else {
        spec_cv_check(msgs.drop_first(), transcript + msgs[0], point)
    }
}

/// The verdict on the handshake of a session: a non-empty chain that
/// verifies, with a leaf carrying a P-256 key under which the server's
/// CertificateVerify signs the transcript (the client's hello, then the
/// server's handshake messages before it). `None` where a certificate that
/// the check reads cannot be walked.
pub open spec fn spec_verify_tls_handshake(
    records: Seq<Seq<u8>>,
    client_hello: Seq<u8>,
    chain: Seq<Seq<u8>>,
    root_hash: Seq<u8>,
) -> Option<bool> {
    if chain.len() == 0 {
        Some(false)
    } else {
        match spec_verify_cert_chain(chain, root_hash) {
            None => None,
            Some(false) => Some(false),
            Some(true) => match spec_parse_cert(chain[0]) {
                None => None,
                Some(None) => Some(false),
                Some(Some(leaf)) => Some(
                    spec_cv_check(spec_all_messages(records), client_hello, leaf.point),
                ),
            },
        }
    }
}

/// The handshake messages framed in a record.
fn record_messages(r: &[u8]) -> (msgs: Vec<Vec<u8>>)
    ensures
        views(msgs@) == spec_messages_from(r@, 0),
{
    let mut msgs: Vec<Vec<u8>> = Vec::new();
    let mut offset: usize = 0;
    while offset <= r.len() && r.len() - offset >= 4
        invariant
            offset <= r@.len(),
            spec_messages_from(r@, 0) == views(msgs@) + spec_messages_from(r@, offset as int),
        decreases r@.len() - offset,
    {
        let msg_len: usize = (r[offset + 1] as usize) * 65536 + (r[offset + 2] as usize) * 256 + (
        r[offset + 3] as usize);
        if msg_len > r.len() - offset - 4 {
            assert(spec_messages_from(r@, offset as int) =~= Seq::<Seq<u8>>::empty());
            assert(views(msgs@) + Seq::<Seq<u8>>::empty() =~= views(msgs@));
            return msgs;
        }
        let end = offset + 4 + msg_len;
        let m = slice_to_vec(&r[offset..end]);
        let ghost before = views(msgs@);
        let ghost rest = spec_messages_from(r@, end as int);
        assert(spec_messages_from(r@, offset as int) == seq![r@.subrange(offset as int, end as int)]
            + rest);
        msgs.push(m);
        assert(views(msgs@) =~= before.push(m@));
        assert(before + (seq![m@] + rest) =~= before.push(m@) + rest);
        offset = end;
    }
    assert(spec_messages_from(r@, offset as int) =~= Seq::<Seq<u8>>::empty());
    assert(views(msgs@) + Seq::<Seq<u8>>::empty() =~= views(msgs@));
    msgs
}

/// Every framed message holds at least its four header bytes.
proof fn lemma_messages_len(r: Seq<u8>, off: int)
    ensures
        forall|k: int|
            0 <= k < spec_messages_from(r, off).len() ==> (#[trigger] spec_messages_from(
                r,
                off,
            )[k]).len() >= 4,
    decreases r.len() - off,
{
    if off >= 0 && off + 4 <= r.len() {
        let len = r[off + 1] as int * 65536 + r[off + 2] as int * 256 + r[off + 3] as int;
        if off + 4 + len <= r.len() {
            lemma_messages_len(r, off + 4 + len);
            let rest = spec_messages_from(r, off + 4 + len);
            let all = spec_messages_from(r, off);
            assert forall|k: int| 0 <= k < all.len() implies (#[trigger] all[k]).len() >= 4 by {
                if k > 0 {
                    assert(all[k] == rest[k - 1]);
                }
            }
        }
    }
}

/// Every message of the handshake records holds its four header bytes.
proof fn lemma_all_messages_len(records: Seq<Seq<u8>>)
    ensures
        forall|k: int|
            0 <= k < spec_all_messages(records).len() ==> (#[trigger] spec_all_messages(
                records,
            )[k]).len() >= 4,
    decreases records.len(),
{
    if records.len() > 0 {
        lemma_all_messages_len(records.drop_last());
        lemma_messages_len(records.last(), 0);
        let a = spec_all_messages(records.drop_last());
        let b = spec_messages_from(records.last(), 0);
        assert forall|k: int| 0 <= k < (a + b).len() implies (#[trigger] (a + b)[k]).len() >= 4 by {
            if k >= a.len() {
                assert((a + b)[k] == b[k - a.len()]);
            }
        }
    }
}

/// The handshake messages of the handshake records, in order.
fn all_messages(records: &[Vec<u8>]) -> (msgs: Vec<Vec<u8>>)
    ensures
        views(msgs@) == spec_all_messages(views(records@)),
{
    let ghost rs = views(records@);
    let mut msgs: Vec<Vec<u8>> = Vec::new();
    let mut i: usize = 0;
    while i < records.len()
        invariant
            rs == views(records@),
            i <= rs.len(),
            views(msgs@) == spec_all_messages(rs.take(i as int)),
        decreases rs.len() - i,
    {
        let more = record_messages(records[i].as_slice());
        assert(rs[i as int] == records@[i as int]@);
        assert(rs.take(i + 1).drop_last() =~= rs.take(i as int));
        assert(rs.take(i + 1).last() == rs[i as int]);
        let ghost before = views(msgs@);
        let mut j: usize = 0;
        while j < more.len()
            invariant
                j <= more@.len(),
                views(msgs@) == before + views(more@).take(j as int),
            decreases more@.len() - j,
        {
            let ghost prev = msgs@;
            let m = slice_to_vec(more[j].as_slice());
            assert(m@ == views(more@)[j as int]);
            msgs.push(m);
            assert(views(msgs@) =~= views(prev).push(m@));
            assert(views(more@).take(j + 1) =~= views(more@).take(j as int).push(views(more@)[j as int]));
            assert(views(msgs@) =~= before + views(more@).take(j + 1));
            j += 1;
        }
        assert(views(more@).take(more@.len() as int) =~= views(more@));
        i += 1;
    }
    assert(rs.take(rs.len() as int) =~= rs);
    msgs
}

/// The content that a CertificateVerify signs for transcript hash `h`.
fn certificate_verify_content(h: &[u8]) -> (c: Vec<u8>)
    ensures
        c@ == cv_content(h@),
{
    let mut c: Vec<u8> = Vec::new();
    let mut i: usize = 0;
    while i < 64
        invariant
            i <= 64,
            c@ == Seq::new(i as nat, |k: int| 0x20u8),
        decreases 64 - i,
    {
        c.push(0x20);
        i += 1;
        assert(c@ =~= Seq::new(i as nat, |k: int| 0x20u8));
    }
    let ctx = "TLS 1.3, server CertificateVerify".as_bytes();
    push_all(&mut c, ctx);
    c.push(0);
    push_all(&mut c, h);
    assert(c@ =~= cv_content(h@));
    c
}

/// Whether the CertificateVerify message `m` signs the transcript under the
/// key `point`.
fn check_certificate_verify(m: &[u8], transcript: &[u8], point: &[u8; 64]) -> (ok: bool)
    requires
        m@.len() >= 4,
    ensures
        ok == cv_valid(m@, transcript@, point@),
{
    let body = &m[4..m.len()];
    assert(body@ == m@.subrange(4, m@.len() as int));
    if body.len() < 4 || body[0] != 4 || body[1] != 3 {
        return false;
    }
    let sig_len = (body[2] as usize) * 256 + (body[3] as usize);
    if sig_len != body.len() - 4 {
        return false;
    }
    let sig = &body[4..body.len()];
    let h = sha384_hash(transcript);
    let content = certificate_verify_content(h.as_slice());
    verify_ecdsa_p256(content.as_slice(), sig, point)
}

/// Whether the first CertificateVerify of the records signs the transcript
/// that starts with the client's hello, under the key `point`.
fn certificate_verify_ok(records: &[Vec<u8>], client_hello: &[u8], point: &[u8; 64]) -> (ok: bool)
    ensures
        ok == spec_cv_check(spec_all_messages(views(records@)), client_hello@, point@),
{
    let msgs = all_messages(records);
    let ghost ms = views(msgs@);
    proof {
        lemma_all_messages_len(views(records@));
    }
    let mut transcript = slice_to_vec(client_hello);
    let mut j: usize = 0;
    assert(ms.subrange(0, ms.len() as int) =~= ms);
    while j < msgs.len()
        invariant
            ms == views(msgs@),
            ms == spec_all_messages(views(records@)),
            j <= ms.len(),
            forall|k: int| 0 <= k < ms.len() ==> (#[trigger] ms[k]).len() >= 4,
            spec_cv_check(ms, client_hello@, point@) == spec_cv_check(
                ms.subrange(j as int, ms.len() as int),
                transcript@,
                point@,
            ),
        decreases ms.len() - j,
    {
        let m = msgs[j].as_slice();
        assert(ms[j as int] == m@);
        let ghost rest = ms.subrange(j as int, ms.len() as int);
        assert(rest[0] == m@);
        if m[0] == HANDSHAKE_TYPE_CERTIFICATE_VERIFY {
            return check_certificate_verify(m, transcript.as_slice(), point);
        }
        assert(rest.drop_first() =~= ms.subrange(j + 1, ms.len() as int));
        let ghost t0 = transcript@;
        push_all(&mut transcript, m);
        j += 1;
    }
    false
}

/// Verifies the server side of a TLS 1.3 handshake: the certificate chain
/// (non-empty, signed link by link, root pinned by its key hash) and the
/// CertificateVerify signature of the transcript under the leaf's key.
pub fn verify_tls_handshake(
    handshake_records: &[Vec<u8>],
    client_hello: &[u8],
    server_cert_chain: &[Vec<u8>],
    expected_root_spki_hash: &[u8; 32],
) -> (ok: bool)
    requires
        spec_verify_tls_handshake(
            views(handshake_records@),
            client_hello@,
            views(server_cert_chain@),
            expected_root_spki_hash@,
        ) is Some,
    ensures
        ok == spec_verify_tls_handshake(
            views(handshake_records@),
            client_hello@,
            views(server_cert_chain@),
            expected_root_spki_hash@,
        ).unwrap(),
{
    if server_cert_chain.len() == 0 {
        return false;
    }
    if !verify_cert_chain(server_cert_chain, expected_root_spki_hash) {
        return false;
    }
    assert(views(server_cert_chain@)[0] == server_cert_chain@[0]@);
    let leaf = match parse_cert(server_cert_chain[0].as_slice()) {
        Some(c) => c,
        None => return false,
    };
    certificate_verify_ok(handshake_records, client_hello, &leaf.0.point)
}

/// Verifies the server side of a handshake on every input: `None` where a
/// certificate that the check reads cannot be walked, otherwise what
/// [`verify_tls_handshake`] returns.
pub fn try_verify_tls_handshake(
    handshake_records: &[Vec<u8>],
    client_hello: &[u8],
    server_cert_chain: &[Vec<u8>],
    expected_root_spki_hash: &[u8; 32],
) -> (r: Option<bool>)
    ensures
        r == spec_verify_tls_handshake(
            views(handshake_records@),
            client_hello@,
            views(server_cert_chain@),
            expected_root_spki_hash@,
        ),
{
    if server_cert_chain.len() == 0 {
        return Some(false);
    }
    match try_verify_cert_chain(server_cert_chain, expected_root_spki_hash) {
        None => None,
        Some(false) => Some(false),
        Some(true) => {
            assert(views(server_cert_chain@)[0] == server_cert_chain@[0]@);
            match try_parse_cert(server_cert_chain[0].as_slice()) {
                None => None,
                Some(None) => Some(false),
                Some(Some(_)) => Some(verify_tls_handshake(
                    handshake_records,
                    client_hello,
                    server_cert_chain,
                    expected_root_spki_hash,
                )),
            }
        },
    }
}

/// Where the links of a chain hold from `i` on, every certificate from `i`
/// on (but the last) parses, and its signature verifies under the next
/// certificate's key wherever that one carries a P-256 key.
proof fn lemma_links_signed(certs: Seq<Seq<u8>>, i: int, j: int)
    requires
        0 <= i <= j < certs.len() - 1,
        spec_chain_links_from(certs, i) == Some(true),
    ensures
        spec_parse_cert(certs[j]) matches Some(Some(c)) && (spec_parse_cert(certs[j + 1]) matches Some(
            Some(n),
        ) ==> spec_ecdsa_p256_valid(c.tbs, c.sig, n.point)),
    decreases j - i,
{
    if i < j {
        lemma_links_signed(certs, i + 1, j);
    }
}

/// A chain that verifies is pinned and signed: it is not empty, its root's
/// SubjectPublicKeyInfo hashes to the expected value, and every certificate
/// but the root parses and is signed by the next one wherever that one
/// carries a P-256 key.
pub proof fn lemma_verified_chain(certs: Seq<Seq<u8>>, root_hash: Seq<u8>)
    requires
        spec_verify_cert_chain(certs, root_hash) == Some(true),
    ensures
        certs.len() > 0,
        spec_extract_spki(certs.last()) matches Some(spki) && sha256_digest(spki) == root_hash,
        forall|j: int|
            0 <= j < certs.len() - 1 ==> (spec_parse_cert(#[trigger] certs[j]) matches Some(Some(c)) && (
            spec_parse_cert(certs[j + 1]) matches Some(Some(n)) ==> spec_ecdsa_p256_valid(
                c.tbs,
                c.sig,
                n.point,
            ))),
{
    assert forall|j: int| 0 <= j < certs.len() - 1 implies (spec_parse_cert(#[trigger] certs[j]) matches Some(
        Some(c),
    ) && (spec_parse_cert(certs[j + 1]) matches Some(Some(n)) ==> spec_ecdsa_p256_valid(
        c.tbs,
        c.sig,
        n.point,
    ))) by {
        lemma_links_signed(certs, 0, j);
    }
}

/// The links from certificate `i` on hold where every certificate but the
/// last reads with a P-256 key, the last reads at all, and each is signed
/// by the next wherever the next carries a P-256 key.
proof fn lemma_links_hold(certs: Seq<Seq<u8>>, i: int)
    requires
        0 <= i,
        certs.len() > 0,
        forall|j: int| 0 <= j < certs.len() - 1 ==> #[trigger] spec_parse_cert(certs[j]) is Some
            && spec_parse_cert(certs[j]).unwrap() is Some,
        spec_parse_cert(certs.last()) is Some,
        forall|j: int|
            0 <= j < certs.len() - 1 ==> (#[trigger] spec_parse_cert(certs[j]) matches Some(Some(c))
                && (spec_parse_cert(certs[j + 1]) matches Some(Some(n)) ==> spec_ecdsa_p256_valid(
                c.tbs,
                c.sig,
                n.point,
            ))),
    ensures
        spec_chain_links_from(certs, i) == Some(true),
    decreases certs.len() - i,
{
    if i + 1 < certs.len() {
        lemma_links_hold(certs, i + 1);
        assert(spec_parse_cert(certs[i]) is Some);
        if i + 1 == certs.len() - 1 {
            assert(certs[i + 1] == certs.last());
        } else {
            assert(spec_parse_cert(certs[i + 1]) is Some);
        }
    }
}

/// The chain check is complete: a chain whose certificates but the last
/// all read with a P-256 key, whose last certificate reads (with a P-256 key
/// or another one, such as a P-384 root), where each certificate is signed
/// by the next wherever the next carries a P-256 key, and whose last
/// SubjectPublicKeyInfo hashes to the expected value, verifies. An issuer
/// without a P-256 key never makes the chain fail.
pub proof fn lemma_chain_complete(certs: Seq<Seq<u8>>, root_hash: Seq<u8>)
    requires
        certs.len() > 0,
        forall|j: int| 0 <= j < certs.len() - 1 ==> #[trigger] spec_parse_cert(certs[j]) is Some
            && spec_parse_cert(certs[j]).unwrap() is Some,
        spec_parse_cert(certs.last()) is Some,
        forall|j: int|
            0 <= j < certs.len() - 1 ==> (#[trigger] spec_parse_cert(certs[j]) matches Some(Some(c))
                && (spec_parse_cert(certs[j + 1]) matches Some(Some(n)) ==> spec_ecdsa_p256_valid(
                c.tbs,
                c.sig,
                n.point,
            ))),
        spec_extract_spki(certs.last()) matches Some(spki) && sha256_digest(spki) == root_hash,
    ensures
        spec_verify_cert_chain(certs, root_hash) == Some(true),
{
    lemma_links_hold(certs, 0);
}

} // verus!
