use agent_marketplace::record::decrypt_record;
use agent_marketplace::session::{
    decrypt_session_records, try_verify_session, verify_session, SessionError, SessionInputs,
};
use agent_marketplace::tls_record::parse_tls_records;

const LEAF_DER: &str = "3082011a3081c1a003020102020102300a06082a8648ce3d04030230143112301006035504030c095465737420526f6f74301e170d3234303130313030303030305a170d3334303130313030303030305a301a3118301606035504030c0f6170692e6578616d706c652e636f6d3059301306072a8648ce3d020106082a8648ce3d0301070342000477881b1cde03e91ce37ac8d28150ee122e3bdb24179a8541f3a1f910bbffe45391213e85a144c2d810845b0b2af06e4e8695ea60513bf1f3e9358ff861899d02300a06082a8648ce3d0403020348003045022011e69d19463c2c43e1227e3d687b43705f0c565d09c1b49f5de899d1da56a1520221009687777bd112db4ea340c800159eee901e6a06ac61e2b9d07b5f913b5361f66a";
const ROOT_DER: &str = "308201293081d0a003020102020101300a06082a8648ce3d04030230143112301006035504030c095465737420526f6f74301e170d3234303130313030303030305a170d3334303130313030303030305a30143112301006035504030c095465737420526f6f743059301306072a8648ce3d020106082a8648ce3d030107034200042d562a617e9dfb0437d6613a0386fbb9c2418e8e8957d4d7a9fd7b151888327a38ecd7d9b6b166746d85b974fb8a6b9fd2bab38b9a40eddb6008a380d0786ccfa3133011300f0603551d130101ff040530030101ff300a06082a8648ce3d0403020348003045022100b95713d2eac88e483a61a87a4fd07c24d6344fc965e9f5de06e9640598c2606602202292d5afc85a3c1e16d7d07d602eb7c1be890da3bf78831eb42e358910225e05";
const ROOT_SPKI_HASH: &str = "ba1fd6f4157985e7327e4c2d4fdcc996919cdde0bb3ae3026c21b0e0cab22280";
const HS_SECRET: &str = "0102030405060708090a0b0c0d0e0f101112131415161718191a1b1c1d1e1f202122232425262728292a2b2c2d2e2f30";
const APP_SECRET: &str = "65666768696a6b6c6d6e6f707172737475767778797a7b7c7d7e7f808182838485868788898a8b8c8d8e8f9091929394";
const HS_KEY: &str = "ab56e7ea07eaef99986a0f0accb58f3ac7db5ce322196d9667722ed2a63d8a64";
const HS_IV: &str = "fc4dc87e05fa4337db00ad3d";
const APP_KEY: &str = "c3e8915ce39d89c72f6682d2b26e922e46685b057cdbeb9d2bd5a90901c2bdb1";
const APP_IV: &str = "9a880293f17219885617ec6f";
const SESSION: &str = "160303000802000004616263641403030001011703030077f80f633c81e6ce32d6a4af1a5609e22f8e4fe49b3faffdf20d1b0e19d65163036e66c0e1b3db6f8ece39087439457e86513c192bf5af7e64a4da2914a2927c6276fd917a11de5bf0bd9971fcf01868edbbcd78b96f17dc1076640c2d3a5da10e942a7971d114c01008d12448366f197fe8ffd51bce80f5170303006052eb09b4efd6c68a95f9659d75b5d802b30816da7559527cb7575f96d650e46812b7a5dbb450ca579bca03f8bff6a11dfed1ba8a7d97a34db4f340f11ef2a6fa46dd7df5f07fc1a15801c50422e2e4914f026d8a4150776a75f2058128f31835";
const SESSION_NO_APP: &str = "160303000802000004616263641403030001011703030077f80f633c81e6ce32d6a4af1a5609e22f8e4fe49b3faffdf20d1b0e19d65163036e66c0e1b3db6f8ece39087439457e86513c192bf5af7e64a4da2914a2927c6276fd917a11de5bf0bd9971fcf01868edbbcd78b96f17dc1076640c2d3a5da10e942a7971d114c01008d12448366f197fe8ffd51bce80f5";
const SESSION_NO_CV: &str = "160303000802000004616263641403030001011703030028f80f633c81e6ce32d6a4af1a5609e2348e4fab35876367d40742d8108877bee6e0317bef38902efe170303006052eb09b4efd6c68a95f9659d75b5d802b30816da7559527cb7575f96d650e46812b7a5dbb450ca579bca03f8bff6a11dfed1ba8a7d97a34db4f340f11ef2a6fa46dd7df5f07fc1a15801c50422e2e4914f026d8a4150776a75f2058128f31835";
const HS_MSGS: &str = "0800000200010b00000500000000ff0f00004b04030047304502205344450c26165e996fce4189dc695d51ec80ad172ca76d9cdba8bedf6790e45e022100ac483e1727c0972dac662616bf6c459e9d3809ca614e032160a3fef634dbd2d114000004aabbccdd";
const CLIENT_HELLO: &str = "0100000668656c6c6f21";
const SERVER_HELLO: &str = "0200000461626364";
const HTTP: &str = "485454502f312e3120323030204f4b0d0a436f6e74656e742d547970653a206170706c69636174696f6e2f6a736f6e0d0a0d0a7b227072696365223a2034322c20226e616d65223a202278227d";

fn h(s: &str) -> Vec<u8> {
    hex::decode(s).unwrap()
}

fn arr32(s: &str) -> [u8; 32] {
    let mut a = [0u8; 32];
    a.copy_from_slice(&h(s));
    a
}

fn arr12(s: &str) -> [u8; 12] {
    let mut a = [0u8; 12];
    a.copy_from_slice(&h(s));
    a
}

fn inputs(records: &str) -> SessionInputs {
    SessionInputs {
        encrypted_records: h(records),
        server_hs_traffic_secret: h(HS_SECRET),
        server_app_traffic_secret: h(APP_SECRET),
        server_cert_chain: vec![h(LEAF_DER), h(ROOT_DER)],
        client_hello: h(CLIENT_HELLO),
        expected_root_spki_hash: arr32(ROOT_SPKI_HASH),
        field_path: "price".to_string(),
        server_name: "api.example.com".to_string(),
        response_body_fallback: vec![],
    }
}

#[test]
fn an_honest_session_reveals_its_field() {
    let out = verify_session(&inputs(SESSION)).ok().unwrap();
    assert_eq!(out.field_value, 42);
    assert_eq!(out.server_name, "api.example.com");
    assert_eq!(out.field_path, "price");
    assert_eq!(out.root_spki_hash, arr32(ROOT_SPKI_HASH));
}

#[test]
fn decrypting_a_session_gathers_handshake_and_response() {
    let data = h(SESSION);
    let records = parse_tls_records(&data);
    assert_eq!(records.len(), 4);
    let d = decrypt_session_records(
        &records,
        &arr32(HS_KEY),
        &arr12(HS_IV),
        &arr32(APP_KEY),
        &arr12(APP_IV),
    );
    assert_eq!(d.handshake, vec![h(SERVER_HELLO), h(HS_MSGS)]);
    assert_eq!(d.response, h(HTTP));
}

#[test]
fn the_first_record_of_a_direction_uses_the_iv_as_nonce() {
    let data = h(SESSION);
    let records = parse_tls_records(&data);
    assert!(decrypt_record(&arr32(HS_KEY), &arr12(HS_IV), 0, &records[2]).is_some());
    assert!(decrypt_record(&arr32(APP_KEY), &arr12(APP_IV), 0, &records[3]).is_some());
    assert!(decrypt_record(&arr32(APP_KEY), &arr12(APP_IV), 1, &records[3]).is_none());
}

#[test]
fn the_fallback_response_is_read_where_nothing_decrypts_as_data() {
    let mut inp = inputs(SESSION_NO_APP);
    inp.response_body_fallback = b"HTTP/1.1 200 OK\r\n\r\n{\"price\": 7}".to_vec();
    assert_eq!(verify_session(&inp).ok().unwrap().field_value, 7);
}

#[test]
fn a_short_traffic_secret_is_refused() {
    let mut inp = inputs(SESSION);
    inp.server_hs_traffic_secret.truncate(47);
    assert!(matches!(verify_session(&inp), Err(SessionError::InvalidPrkLength)));
    let mut inp = inputs(SESSION);
    inp.server_app_traffic_secret = vec![];
    assert!(matches!(verify_session(&inp), Err(SessionError::InvalidPrkLength)));
}

#[test]
fn a_session_without_response_is_refused() {
    let inp = inputs(SESSION_NO_APP);
    assert!(matches!(verify_session(&inp), Err(SessionError::HttpResponse)));
}

#[test]
fn a_missing_field_is_refused() {
    let mut inp = inputs(SESSION);
    inp.field_path = "volume".to_string();
    assert!(matches!(verify_session(&inp), Err(SessionError::JsonField)));
    let mut inp = inputs(SESSION);
    inp.field_path = "name".to_string();
    assert!(matches!(verify_session(&inp), Err(SessionError::JsonField)));
}

#[test]
fn an_unpinned_server_is_refused() {
    let mut inp = inputs(SESSION);
    inp.expected_root_spki_hash[0] ^= 1;
    assert!(matches!(verify_session(&inp), Err(SessionError::HandshakeVerification)));
}

#[test]
fn a_handshake_without_certificate_verify_is_refused() {
    let inp = inputs(SESSION_NO_CV);
    assert!(matches!(verify_session(&inp), Err(SessionError::HandshakeVerification)));
}

#[test]
fn a_session_is_refused_under_another_client_hello() {
    let mut inp = inputs(SESSION);
    inp.client_hello = vec![1, 0, 0, 0];
    assert!(matches!(verify_session(&inp), Err(SessionError::HandshakeVerification)));
}

#[test]
fn the_wrong_traffic_secrets_read_nothing() {
    let mut inp = inputs(SESSION);
    inp.server_app_traffic_secret = vec![9u8; 48];
    assert!(matches!(verify_session(&inp), Err(SessionError::HttpResponse)));
}

#[test]
fn try_verify_session_marks_an_unreadable_certificate() {
    let mut inp = inputs(SESSION);
    inp.server_cert_chain[0].truncate(50);
    assert!(try_verify_session(&inp).is_none());
    let ok = try_verify_session(&inputs(SESSION)).unwrap().ok().unwrap();
    assert_eq!(ok.field_value, 42);
    let mut inp = inputs(SESSION);
    inp.field_path = "volume".to_string();
    assert!(matches!(try_verify_session(&inp), Some(Err(SessionError::JsonField))));
}

#[test]
fn session_errors_carry_their_messages() {
    assert_eq!(SessionError::InvalidPrkLength.message(), "invalid PRK length");
    assert_eq!(SessionError::HttpResponse.message(), "Failed to parse HTTP response");
    assert_eq!(SessionError::JsonField.message(), "Failed to extract field from JSON");
    assert_eq!(
        SessionError::HandshakeVerification.message(),
        "TLS handshake verification failed"
    );
}
