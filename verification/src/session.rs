//! The statement that a zkTLS proof carries: from the captured server records
//! and traffic secrets of a TLS 1.3 session, decrypt the handshake and the
//! response, read the requested JSON field, and accept the session only where
//! the server's handshake verifies.

use vstd::prelude::*;
use vstd::slice::slice_to_vec;
use vstd::string::*;
use vstd::utf8::*;

use crate::chain::{
    lemma_verified_chain, spec_all_messages, spec_cv_check, spec_verify_cert_chain,
    spec_verify_tls_handshake, try_verify_tls_handshake, verify_tls_handshake, views,
};
use crate::crypto::sha256_digest;
use crate::der::spec_parse_cert;
use crate::spki::spec_extract_spki;
use crate::crypto::{derive_key_iv, spec_traffic_iv, spec_traffic_key};
use crate::http::{extract_json_field, json_u64_field, parse_http_response, spec_http_body};
use crate::record::{decrypt_record, spec_decrypt_record};
use crate::tls_record::{
    parse_tls_records, record_views, spec_records, TlsRecord, CONTENT_TYPE_APPLICATION_DATA,
    CONTENT_TYPE_HANDSHAKE,
};

verus! {

broadcast use vstd::utf8::encode_utf8_decode_utf8;

/// Content type of a ChangeCipherSpec record, after which the server's
/// records are protected.
pub const CONTENT_TYPE_CHANGE_CIPHER_SPEC: u8 = 20;

/// The traffic keys and IVs of a session.
pub struct SessionKeys {
    pub hs_key: Seq<u8>,
    pub hs_iv: Seq<u8>,
    pub app_key: Seq<u8>,
    pub app_iv: Seq<u8>,
}

/// What decrypting the server's records has gathered so far.
pub struct DecryptState {
    /// Sequence number of the next record under the handshake keys.
    pub hs_seq: nat,
    /// Sequence number of the next record under the application keys.
    pub app_seq: nat,
    /// A ChangeCipherSpec record has been seen.
    pub keys_active: bool,
    /// No protected record has yet carried anything but handshake messages.
    pub handshake_phase: bool,
    /// The handshake messages, one entry per record.
    pub handshake: Seq<Seq<u8>>,
    /// The application data received.
    pub response: Seq<u8>,
}

/// The state before any record.
pub open spec fn initial_state() -> DecryptState {
    DecryptState {
        hs_seq: 0,
        app_seq: 0,
        keys_active: false,
        handshake_phase: true,
        handshake: seq![],
        response: seq![],
    }
}

/// Takes one record into account. Before ChangeCipherSpec, plaintext
/// handshake records are kept as they are. After it, during the handshake
/// phase a record is first tried under the handshake keys: a handshake
/// message is kept, anything else ends the phase and counts as response.
/// Otherwise (or where that fails) it is tried under the application keys:
/// application data counts as response, a handshake message is kept while the
/// phase lasts. A record that opens under neither is passed over.
pub open spec fn spec_step(k: SessionKeys, st: DecryptState, rec: (u8, Seq<u8>)) -> DecryptState {
    if rec.0 == CONTENT_TYPE_CHANGE_CIPHER_SPEC {
        DecryptState { keys_active: true, ..st }
    } else if !st.keys_active {
        if rec.0 == CONTENT_TYPE_HANDSHAKE {
            DecryptState { handshake: st.handshake.push(rec.1), ..st }
        } else {
            st
        }
    } else {
        let hs_try = if st.handshake_phase {
            spec_decrypt_record(k.hs_key, k.hs_iv, st.hs_seq as u64, rec.1)
        } else {
            None
        };
        match hs_try {
            Some((data, inner)) => if inner == CONTENT_TYPE_HANDSHAKE {
                DecryptState { hs_seq: st.hs_seq + 1, handshake: st.handshake.push(data), ..st }
            } else {
                DecryptState {
                    hs_seq: st.hs_seq + 1,
                    handshake_phase: false,
                    response: st.response + data,
                    ..st
                }
            },
            None => match spec_decrypt_record(k.app_key, k.app_iv, st.app_seq as u64, rec.1) {
                None => st,
                Some((data, inner)) => if inner == CONTENT_TYPE_APPLICATION_DATA {
                    DecryptState { app_seq: st.app_seq + 1, response: st.response + data, ..st }
                } else if inner == CONTENT_TYPE_HANDSHAKE && st.handshake_phase {
                    DecryptState {
                        app_seq: st.app_seq + 1,
                        handshake: st.handshake.push(data),
                        ..st
                    }
                } else {
                    DecryptState { app_seq: st.app_seq + 1, ..st }
                },
            },
        }
    }
}

/// The state after a sequence of records.
pub open spec fn spec_run(k: SessionKeys, recs: Seq<(u8, Seq<u8>)>) -> DecryptState
    decreases recs.len(),
{
    if recs.len() == 0 {
        initial_state()
    } else {
        spec_step(k, spec_run(k, recs.drop_last()), recs.last())
    }
}

/// Each record adds at most one to each sequence number.
proof fn lemma_run_counts(k: SessionKeys, recs: Seq<(u8, Seq<u8>)>)
    ensures
        spec_run(k, recs).hs_seq <= recs.len(),
        spec_run(k, recs).app_seq <= recs.len(),
    decreases recs.len(),
{
    if recs.len() > 0 {
        lemma_run_counts(k, recs.drop_last());
    }
}

/// Decrypted handshake records and response of a session's server records.
pub struct Decrypted {
    pub handshake: Vec<Vec<u8>>,
    pub response: Vec<u8>,
}

/// Appends every byte of `s` to `v`.
fn extend_bytes(v: &mut Vec<u8>, s: &[u8])
    ensures
        final(v)@ == old(v)@ + s@,
{
    let mut i: usize = 0;
    while i < s.len()
        invariant
            i <= s@.len(),
            v@ == old(v)@ + s@.subrange(0, i as int),
        decreases s@.len() - i,
    {
        v.push(s[i]);
        i += 1;
        assert(v@ =~= old(v)@ + s@.subrange(0, i as int));
    }
    assert(s@.subrange(0, s@.len() as int) =~= s@);
}

/// Decrypts the server's records of a session with its handshake and
/// application traffic keys.
pub fn decrypt_session_records(
    records: &Vec<TlsRecord>,
    hs_key: &[u8; 32],
    hs_iv: &[u8; 12],
    app_key: &[u8; 32],
    app_iv: &[u8; 12],
) -> (out: Decrypted)
    ensures
        ({
            let st = spec_run(
                SessionKeys { hs_key: hs_key@, hs_iv: hs_iv@, app_key: app_key@, app_iv: app_iv@ },
                record_views(records@),
            );
            views(out.handshake@) == st.handshake && out.response@ == st.response
        }),
{
    let ghost k = SessionKeys { hs_key: hs_key@, hs_iv: hs_iv@, app_key: app_key@, app_iv: app_iv@ };
    let ghost recs = record_views(records@);
    let mut handshake: Vec<Vec<u8>> = Vec::new();
    let mut response: Vec<u8> = Vec::new();
    let mut hs_seq: u64 = 0;
    let mut app_seq: u64 = 0;
    let mut keys_active = false;
    let mut handshake_phase = true;
    let mut i: usize = 0;
    while i < records.len()
        invariant
            recs == record_views(records@),
            k == (SessionKeys { hs_key: hs_key@, hs_iv: hs_iv@, app_key: app_key@, app_iv: app_iv@ }),
            i <= records@.len(),
            ({
                let st = spec_run(k, recs.take(i as int));
                &&& st.hs_seq == hs_seq as nat
                &&& st.app_seq == app_seq as nat
                &&& st.keys_active == keys_active
                &&& st.handshake_phase == handshake_phase
                &&& st.handshake == views(handshake@)
                &&& st.response == response@
            }),
        decreases records@.len() - i,
    {
        proof {
            assert(recs.take(i + 1).drop_last() =~= recs.take(i as int));
            assert(recs.take(i + 1).last() == recs[i as int]);
            lemma_run_counts(k, recs.take(i as int));
            assert(recs.take(i as int).len() == i);
        }
        let record = &records[i];
        assert(recs[i as int] == record@);
        if record.content_type == CONTENT_TYPE_CHANGE_CIPHER_SPEC {
            keys_active = true;
            i += 1;
            continue;
        }
        if !keys_active {
            if record.content_type == CONTENT_TYPE_HANDSHAKE {
                let ghost before = handshake@;
                handshake.push(slice_to_vec(record.data));
                assert(views(handshake@) =~= views(before).push(record.data@));
            }
            i += 1;
            continue;
        }
        if handshake_phase {
            match decrypt_record(hs_key, hs_iv, hs_seq, record) {
                Some((data, inner_type)) => {
                    hs_seq += 1;
                    if inner_type == CONTENT_TYPE_HANDSHAKE {
                        let ghost before = handshake@;
                        handshake.push(data);
                        assert(views(handshake@) =~= views(before).push(data@));
                    } else {
                        handshake_phase = false;
                        extend_bytes(&mut response, data.as_slice());
                    }
                    i += 1;
                    continue;
                },
                None => {},
            }
        }
        match decrypt_record(app_key, app_iv, app_seq, record) {
            Some((data, inner_type)) => {
                app_seq += 1;
                if inner_type == CONTENT_TYPE_APPLICATION_DATA {
                    extend_bytes(&mut response, data.as_slice());
                } else if inner_type == CONTENT_TYPE_HANDSHAKE && handshake_phase {
                    let ghost before = handshake@;
                    handshake.push(data);
                    assert(views(handshake@) =~= views(before).push(data@));
                }
            },
            None => {},
        }
        i += 1;
    }
    assert(recs.take(records@.len() as int) =~= recs);
    Decrypted { handshake, response }
}

/// The private inputs of a session proof.
pub struct SessionInputs {
    /// Every record the server sent, as captured from the wire.
    pub encrypted_records: Vec<u8>,
    pub server_hs_traffic_secret: Vec<u8>,
    pub server_app_traffic_secret: Vec<u8>,
    /// The server's certificates, leaf first, DER-encoded.
    pub server_cert_chain: Vec<Vec<u8>>,
    /// The client's ClientHello message (type, length and body), with which
    /// the handshake transcript starts.
    pub client_hello: Vec<u8>,
    /// SHA-256 of the root certificate's SubjectPublicKeyInfo.
    pub expected_root_spki_hash: [u8; 32],
    /// The JSON key whose value the proof reveals.
    pub field_path: String,
    pub server_name: String,
    /// The HTTP response to read where no application data decrypts.
    pub response_body_fallback: Vec<u8>,
}

/// The public outputs of a session proof.
pub struct SessionOutputs {
    pub field_value: u64,
    pub server_name: String,
    pub field_path: String,
    pub root_spki_hash: [u8; 32],
}

/// Why a session is refused.
#[derive(PartialEq, Eq, Structural, Debug, Clone, Copy)]
pub enum SessionError {
    /// A traffic secret is shorter than a SHA-384 hash.
    InvalidPrkLength,
    /// No HTTP body could be read from the response.
    HttpResponse,
    /// The body has no unsigned integer at the requested key.
    JsonField,
    /// The certificate chain or the handshake does not verify.
    HandshakeVerification,
}

impl SessionError {
    /// The message with which the proving program stops on this error.
    pub fn message(&self) -> (m: &'static str)
        ensures
            m@ == (match *self {
                SessionError::InvalidPrkLength => "invalid PRK length"@,
                SessionError::HttpResponse => "Failed to parse HTTP response"@,
                SessionError::JsonField => "Failed to extract field from JSON"@,
                SessionError::HandshakeVerification => "TLS handshake verification failed"@,
            }),
    {
        match self {
            SessionError::InvalidPrkLength => "invalid PRK length",
            SessionError::HttpResponse => "Failed to parse HTTP response",
            SessionError::JsonField => "Failed to extract field from JSON",
            SessionError::HandshakeVerification => "TLS handshake verification failed",
        }
    }
}

/// The traffic keys of a session's secrets.
pub open spec fn spec_session_keys(inp: &SessionInputs) -> SessionKeys {
    SessionKeys {
        hs_key: spec_traffic_key(inp.server_hs_traffic_secret@),
        hs_iv: spec_traffic_iv(inp.server_hs_traffic_secret@),
        app_key: spec_traffic_key(inp.server_app_traffic_secret@),
        app_iv: spec_traffic_iv(inp.server_app_traffic_secret@),
    }
}

/// The handshake messages that decrypting a session's records gathers.
pub open spec fn spec_session_handshake(inp: &SessionInputs) -> Seq<Seq<u8>> {
    spec_run(spec_session_keys(inp), spec_records(inp.encrypted_records@)).handshake
}

/// The requested field of a session's response, or why it cannot be read.
/// The decrypted response is read where it is not empty, the fallback
/// otherwise.
pub open spec fn spec_session_field(inp: &SessionInputs) -> Result<u64, SessionError> {
    if inp.server_hs_traffic_secret@.len() < 48 || inp.server_app_traffic_secret@.len() < 48 {
        Err(SessionError::InvalidPrkLength)
    } else {
        let st = spec_run(spec_session_keys(inp), spec_records(inp.encrypted_records@));
        let body = if st.response.len() > 0 {
            spec_http_body(st.response)
        } else {
            spec_http_body(inp.response_body_fallback@)
        };
        match body {
            None => Err(SessionError::HttpResponse),
            Some(b) => match json_u64_field(decode_utf8(b), inp.field_path@) {
                None => Err(SessionError::JsonField),
                Some(v) => Ok(v),
            },
        }
    }
}

/// The verdict on a session: the revealed field value, or why the session is
/// refused; `None` where a certificate that the check reads cannot be walked.
pub open spec fn spec_session(inp: &SessionInputs) -> Option<Result<u64, SessionError>> {
    match spec_session_field(inp) {
        Err(e) => Some(Err(e)),
        Ok(v) => match spec_verify_tls_handshake(
            spec_session_handshake(inp),
            inp.client_hello@,
            views(inp.server_cert_chain@),
            inp.expected_root_spki_hash@,
        ) {
            None => None,
            Some(false) => Some(Err(SessionError::HandshakeVerification)),
            Some(true) => Some(Ok(v)),
        },
    }
}

/// Decrypts a session's records and reads the requested field of its
/// response; the decrypted handshake messages come back with the value.
fn session_field(inp: &SessionInputs) -> (res: Result<(u64, Vec<Vec<u8>>), SessionError>)
    ensures
        match spec_session_field(inp) {
            Err(e) => res == Err::<(u64, Vec<Vec<u8>>), SessionError>(e),
            Ok(v) => res matches Ok((w, hs)) && w == v && views(hs@) == spec_session_handshake(inp),
        },
{
    if inp.server_hs_traffic_secret.len() < 48 || inp.server_app_traffic_secret.len() < 48 {
        return Err(SessionError::InvalidPrkLength);
    }
    let (hs_key, hs_iv) = derive_key_iv(inp.server_hs_traffic_secret.as_slice());
    let (app_key, app_iv) = derive_key_iv(inp.server_app_traffic_secret.as_slice());
    let records = parse_tls_records(inp.encrypted_records.as_slice());
    let decrypted = decrypt_session_records(&records, &hs_key, &hs_iv, &app_key, &app_iv);
    let http_body = if decrypted.response.len() > 0 {
        parse_http_response(decrypted.response.as_slice())
    } else {
        parse_http_response(inp.response_body_fallback.as_slice())
    };
    let body = match http_body {
        Some(b) => b,
        None => return Err(SessionError::HttpResponse),
    };
    proof {
        assert(decode_utf8(body.spec_bytes()) == body@);
    }
    let field_value = match extract_json_field(body, inp.field_path.as_str()) {
        Some(v) => v,
        None => return Err(SessionError::JsonField),
    };
    Ok((field_value, decrypted.handshake))
}

/// The public outputs that reveal `field_value` for a session.
fn session_outputs(inp: &SessionInputs, field_value: u64) -> (out: SessionOutputs)
    ensures
        out.field_value == field_value,
        out.server_name@ == inp.server_name@,
        out.field_path@ == inp.field_path@,
        out.root_spki_hash@ == inp.expected_root_spki_hash@,
{
    SessionOutputs {
        field_value,
        server_name: inp.server_name.clone(),
        field_path: inp.field_path.clone(),
        root_spki_hash: inp.expected_root_spki_hash,
    }
}

/// Checks a captured TLS 1.3 session and reveals the requested field: the
/// server's records are decrypted, the HTTP body is read and its JSON field
/// extracted, and the server's handshake (certificate chain pinned to the
/// root key hash, CertificateVerify) must verify.
pub fn verify_session(inp: &SessionInputs) -> (res: Result<SessionOutputs, SessionError>)
    requires
        spec_session(inp) is Some,
    ensures
        match spec_session(inp).unwrap() {
            Err(e) => res == Err::<SessionOutputs, SessionError>(e),
            Ok(v) => res matches Ok(out) && out.field_value == v && out.server_name@
                == inp.server_name@ && out.field_path@ == inp.field_path@ && out.root_spki_hash@
                == inp.expected_root_spki_hash@,
        },
{
    let (field_value, handshake) = session_field(inp)?;
    let outputs = session_outputs(inp, field_value);
    if !verify_tls_handshake(
        handshake.as_slice(),
        inp.client_hello.as_slice(),
        inp.server_cert_chain.as_slice(),
        &inp.expected_root_spki_hash,
    ) {
        return Err(SessionError::HandshakeVerification);
    }
    Ok(outputs)
}

/// Checks a captured session on every input: `None` where a certificate that
/// the check reads cannot be walked, otherwise what [`verify_session`]
/// returns.
pub fn try_verify_session(inp: &SessionInputs) -> (res: Option<Result<SessionOutputs, SessionError>>)
    requires
    ensures
        match spec_session(inp) {
            None => res is None,
            Some(Err(e)) => res == Some(Err::<SessionOutputs, SessionError>(e)),
            Some(Ok(v)) => res matches Some(Ok(out)) && out.field_value == v && out.server_name@
                == inp.server_name@ && out.field_path@ == inp.field_path@ && out.root_spki_hash@
                == inp.expected_root_spki_hash@,
        },
{
    let (_, handshake) = match session_field(inp) {
        Err(e) => return Some(Err(e)),
        Ok(t) => t,
    };
    if try_verify_tls_handshake(
        handshake.as_slice(),
        inp.client_hello.as_slice(),
        inp.server_cert_chain.as_slice(),
        &inp.expected_root_spki_hash,
    ).is_none() {
        return None;
    }
    Some(verify_session(inp))
}

/// An accepted session reveals only what its server proved: where a session
/// is accepted with value `v`, the server's chain verifies (its root key
/// pinned to the expected hash), its leaf's P-256 key signed the handshake
/// transcript in the first CertificateVerify message among the decrypted
/// handshake records, and `v` is the requested field of the body
/// read from the decrypted response (or from the fallback where nothing
/// decrypted as application data).
pub proof fn lemma_accepted_session(inp: &SessionInputs, v: u64)
    requires
        spec_session(inp) == Some(Ok::<u64, SessionError>(v)),
    ensures
        ({
            let st = spec_run(spec_session_keys(inp), spec_records(inp.encrypted_records@));
            let chain = views(inp.server_cert_chain@);
            &&& spec_verify_cert_chain(chain, inp.expected_root_spki_hash@) == Some(true)
            &&& spec_extract_spki(chain.last()) matches Some(spki) && sha256_digest(spki)
                == inp.expected_root_spki_hash@
            &&& spec_parse_cert(chain[0]) matches Some(Some(leaf)) && spec_cv_check(
                spec_all_messages(st.handshake),
                inp.client_hello@,
                leaf.point,
            )
            &&& ({
                let body = if st.response.len() > 0 {
                    spec_http_body(st.response)
                } else {
                    spec_http_body(inp.response_body_fallback@)
                };
                body matches Some(b) && json_u64_field(decode_utf8(b), inp.field_path@) == Some(v)
            })
        }),
{
    let chain = views(inp.server_cert_chain@);
    lemma_verified_chain(chain, inp.expected_root_spki_hash@);
}

/// Taking one more record into account never drops response bytes: the
/// response after it starts with the response before it. Where the record
/// opens under the application keys as application data with content `c`
/// (and, while the handshake lasts, not under the handshake keys), the
/// response grows by exactly `c`.
pub proof fn lemma_response_appends(k: SessionKeys, recs: Seq<(u8, Seq<u8>)>, r: (u8, Seq<u8>))
    ensures
        ({
            let before = spec_run(k, recs).response;
            let after = spec_run(k, recs.push(r)).response;
            after.len() >= before.len() && after.subrange(0, before.len() as int) == before
        }),
        forall|c: Seq<u8>|
            ({
                let st = spec_run(k, recs);
                &&& st.keys_active
                &&& r.0 != CONTENT_TYPE_CHANGE_CIPHER_SPEC
                &&& st.handshake_phase ==> spec_decrypt_record(
                    k.hs_key,
                    k.hs_iv,
                    st.hs_seq as u64,
                    r.1,
                ) is None
                &&& spec_decrypt_record(k.app_key, k.app_iv, st.app_seq as u64, r.1) == Some(
                    (c, CONTENT_TYPE_APPLICATION_DATA),
                )
            }) ==> #[trigger] spec_run(k, recs.push(r)).response == spec_run(k, recs).response + c,
{
    assert(recs.push(r).drop_last() =~= recs);
    let before = spec_run(k, recs).response;
    let after = spec_run(k, recs.push(r)).response;
    assert(after.subrange(0, before.len() as int) =~= before);
}

/// The response of a run is never lost by later records: whatever records
/// follow, the final response starts with the response so far.
pub proof fn lemma_response_prefix(k: SessionKeys, a: Seq<(u8, Seq<u8>)>, b: Seq<(u8, Seq<u8>)>)
    ensures
        ({
            let before = spec_run(k, a).response;
            let after = spec_run(k, a + b).response;
            after.len() >= before.len() && after.subrange(0, before.len() as int) == before
        }),
    decreases b.len(),
{
    if b.len() == 0 {
        assert(a + b =~= a);
        assert(spec_run(k, a).response.subrange(0, spec_run(k, a).response.len() as int)
            =~= spec_run(k, a).response);
    } else {
        lemma_response_prefix(k, a, b.drop_last());
        assert((a + b.drop_last()).push(b.last()) =~= a + b);
        lemma_response_appends(k, a + b.drop_last(), b.last());
        let x = spec_run(k, a).response;
        let y = spec_run(k, a + b.drop_last()).response;
        let z = spec_run(k, a + b).response;
        assert(z.subrange(0, x.len() as int) =~= z.subrange(0, y.len() as int).subrange(
            0,
            x.len() as int,
        ));
    }
}

/// Protected handshake records are opened with consecutive sequence
/// numbers: during the handshake, after a ChangeCipherSpec, two records that
/// open under the handshake keys at the current sequence number and the
/// next one, both as handshake messages, are both kept, in order, and the
/// sequence number moves on by two.
pub proof fn lemma_handshake_records_in_sequence(
    k: SessionKeys,
    recs: Seq<(u8, Seq<u8>)>,
    r1: (u8, Seq<u8>),
    r2: (u8, Seq<u8>),
    c1: Seq<u8>,
    c2: Seq<u8>,
)
    requires
        spec_run(k, recs).keys_active,
        spec_run(k, recs).handshake_phase,
        spec_run(k, recs).hs_seq + 1 <= u64::MAX,
        r1.0 != CONTENT_TYPE_CHANGE_CIPHER_SPEC,
        r2.0 != CONTENT_TYPE_CHANGE_CIPHER_SPEC,
        spec_decrypt_record(k.hs_key, k.hs_iv, spec_run(k, recs).hs_seq as u64, r1.1) == Some(
            (c1, CONTENT_TYPE_HANDSHAKE),
        ),
        spec_decrypt_record(k.hs_key, k.hs_iv, (spec_run(k, recs).hs_seq + 1) as u64, r2.1)
            == Some((c2, CONTENT_TYPE_HANDSHAKE)),
    ensures
        spec_run(k, recs.push(r1).push(r2)).handshake == spec_run(k, recs).handshake.push(c1).push(
            c2,
        ),
        spec_run(k, recs.push(r1).push(r2)).hs_seq == spec_run(k, recs).hs_seq + 2,
        spec_run(k, recs.push(r1).push(r2)).handshake_phase,
{
    assert(recs.push(r1).drop_last() =~= recs);
    assert(recs.push(r1).push(r2).drop_last() =~= recs.push(r1));
    let st = spec_run(k, recs);
    let st1 = spec_run(k, recs.push(r1));
    assert(st1 == spec_step(k, st, r1));
    assert(st1.hs_seq == st.hs_seq + 1);
    assert(st1.handshake == st.handshake.push(c1));
    assert(st1.keys_active && st1.handshake_phase);
    assert(st1.hs_seq as u64 == (st.hs_seq + 1) as u64);
    let st2 = spec_run(k, recs.push(r1).push(r2));
    assert(st2 == spec_step(k, st1, r2));
}

/// Protected application records are opened with consecutive sequence
/// numbers: once the handshake is over (after a ChangeCipherSpec), two
/// records that open under the application keys at the current sequence
/// number and the next one, as application data, both add their content to
/// the response, in order.
pub proof fn lemma_application_records_in_sequence(
    k: SessionKeys,
    recs: Seq<(u8, Seq<u8>)>,
    r1: (u8, Seq<u8>),
    r2: (u8, Seq<u8>),
    c1: Seq<u8>,
    c2: Seq<u8>,
)
    requires
        spec_run(k, recs).keys_active,
        !spec_run(k, recs).handshake_phase,
        spec_run(k, recs).app_seq + 1 <= u64::MAX,
        r1.0 != CONTENT_TYPE_CHANGE_CIPHER_SPEC,
        r2.0 != CONTENT_TYPE_CHANGE_CIPHER_SPEC,
        spec_decrypt_record(k.app_key, k.app_iv, spec_run(k, recs).app_seq as u64, r1.1) == Some(
            (c1, CONTENT_TYPE_APPLICATION_DATA),
        ),
        spec_decrypt_record(k.app_key, k.app_iv, (spec_run(k, recs).app_seq + 1) as u64, r2.1)
            == Some((c2, CONTENT_TYPE_APPLICATION_DATA)),
    ensures
        spec_run(k, recs.push(r1).push(r2)).response == spec_run(k, recs).response + c1 + c2,
        spec_run(k, recs.push(r1).push(r2)).app_seq == spec_run(k, recs).app_seq + 2,
        spec_run(k, recs.push(r1).push(r2)).handshake == spec_run(k, recs).handshake,
{
    assert(recs.push(r1).drop_last() =~= recs);
    assert(recs.push(r1).push(r2).drop_last() =~= recs.push(r1));
    let st = spec_run(k, recs);
    let st1 = spec_run(k, recs.push(r1));
    assert(st1 == spec_step(k, st, r1));
    assert(st1.app_seq == st.app_seq + 1);
    assert(st1.response == st.response + c1);
    assert(st1.keys_active && !st1.handshake_phase && st1.handshake == st.handshake);
    assert(st1.app_seq as u64 == (st.app_seq + 1) as u64);
    let st2 = spec_run(k, recs.push(r1).push(r2));
    assert(st2 == spec_step(k, st1, r2));
}

/// Records before the ChangeCipherSpec are not protected: a handshake
/// record seen before it is kept as it is, and nothing is decrypted.
pub proof fn lemma_plaintext_handshake_kept(
    k: SessionKeys,
    recs: Seq<(u8, Seq<u8>)>,
    r: (u8, Seq<u8>),
)
    requires
        !spec_run(k, recs).keys_active,
        r.0 == CONTENT_TYPE_HANDSHAKE,
    ensures
        spec_run(k, recs.push(r)).handshake == spec_run(k, recs).handshake.push(r.1),
        spec_run(k, recs.push(r)).response == spec_run(k, recs).response,
        spec_run(k, recs.push(r)).hs_seq == spec_run(k, recs).hs_seq,
{
    assert(recs.push(r).drop_last() =~= recs);
}

} // verus!
