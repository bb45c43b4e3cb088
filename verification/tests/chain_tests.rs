use agent_marketplace::chain::{
    try_verify_cert_chain, try_verify_tls_handshake, verify_cert_chain, verify_tls_handshake,
};
use agent_marketplace::crypto::{sha256_hash, verify_ecdsa_p256};
use agent_marketplace::der::parse_cert;
use agent_marketplace::spki::extract_spki_der_host;

const LEAF_DER: &str = "3082011a3081c1a003020102020102300a06082a8648ce3d04030230143112301006035504030c095465737420526f6f74301e170d3234303130313030303030305a170d3334303130313030303030305a301a3118301606035504030c0f6170692e6578616d706c652e636f6d3059301306072a8648ce3d020106082a8648ce3d0301070342000477881b1cde03e91ce37ac8d28150ee122e3bdb24179a8541f3a1f910bbffe45391213e85a144c2d810845b0b2af06e4e8695ea60513bf1f3e9358ff861899d02300a06082a8648ce3d0403020348003045022011e69d19463c2c43e1227e3d687b43705f0c565d09c1b49f5de899d1da56a1520221009687777bd112db4ea340c800159eee901e6a06ac61e2b9d07b5f913b5361f66a";
const ROOT_DER: &str = "308201293081d0a003020102020101300a06082a8648ce3d04030230143112301006035504030c095465737420526f6f74301e170d3234303130313030303030305a170d3334303130313030303030305a30143112301006035504030c095465737420526f6f743059301306072a8648ce3d020106082a8648ce3d030107034200042d562a617e9dfb0437d6613a0386fbb9c2418e8e8957d4d7a9fd7b151888327a38ecd7d9b6b166746d85b974fb8a6b9fd2bab38b9a40eddb6008a380d0786ccfa3133011300f0603551d130101ff040530030101ff300a06082a8648ce3d0403020348003045022100b95713d2eac88e483a61a87a4fd07c24d6344fc965e9f5de06e9640598c2606602202292d5afc85a3c1e16d7d07d602eb7c1be890da3bf78831eb42e358910225e05";
const ROOT_SPKI_HASH: &str = "ba1fd6f4157985e7327e4c2d4fdcc996919cdde0bb3ae3026c21b0e0cab22280";
const HS_MSGS: &str = "0800000200010b00000500000000ff0f00004b04030047304502205344450c26165e996fce4189dc695d51ec80ad172ca76d9cdba8bedf6790e45e022100ac483e1727c0972dac662616bf6c459e9d3809ca614e032160a3fef634dbd2d114000004aabbccdd";
const SERVER_HELLO: &str = "0200000461626364";
const CLIENT_HELLO: &str = "0100000668656c6c6f21";
const HS_BADSIG: &str = "0800000200010b00000500000000ff0f00004b04030047304502205344450c26165e996fce4189dc695d51ec80ad172ca76d9cdba8bedf6790e45e022100ac483e1727c0972dac662616bf6c459e9d3809ca614e032160a3fef634dbd2d014000004aabbccdd";

fn h(s: &str) -> Vec<u8> {
    hex::decode(s).unwrap()
}

fn root_hash() -> [u8; 32] {
    let mut a = [0u8; 32];
    a.copy_from_slice(&h(ROOT_SPKI_HASH));
    a
}

fn chain() -> Vec<Vec<u8>> {
    vec![h(LEAF_DER), h(ROOT_DER)]
}

#[test]
fn accepts_a_chain_pinned_to_its_root() {
    assert!(verify_cert_chain(&chain(), &root_hash()));
}

#[test]
fn accepts_a_lone_pinned_root() {
    assert!(verify_cert_chain(&[h(ROOT_DER)], &root_hash()));
}

#[test]
fn refuses_another_root_hash() {
    let mut other = root_hash();
    other[31] ^= 0xff;
    assert!(!verify_cert_chain(&chain(), &other));
}

#[test]
fn refuses_an_empty_chain() {
    assert!(!verify_cert_chain(&[], &root_hash()));
    assert!(!verify_tls_handshake(&[h(HS_MSGS)], &h(CLIENT_HELLO), &[], &root_hash()));
}

#[test]
fn refuses_a_leaf_whose_signature_does_not_verify() {
    let mut leaf = h(LEAF_DER);
    let n = leaf.len();
    leaf[n - 1] ^= 0x01;
    assert!(!verify_cert_chain(&[leaf, h(ROOT_DER)], &root_hash()));
}

#[test]
fn refuses_a_chain_in_the_wrong_order() {
    // The root is not signed by the leaf's key.
    assert!(!verify_cert_chain(&[h(ROOT_DER), h(LEAF_DER)], &root_hash()));
}

#[test]
fn a_verified_chain_is_pinned_and_signed() {
    let c = chain();
    assert!(verify_cert_chain(&c, &root_hash()));
    let spki = extract_spki_der_host(&c[1]).unwrap();
    assert_eq!(sha256_hash(&spki), root_hash());
    let (_, sig, _, _, tbs) = parse_cert(&c[0]).unwrap();
    let (root_key, _, _, _, _) = parse_cert(&c[1]).unwrap();
    assert!(verify_ecdsa_p256(&tbs, &sig, &root_key.point));
}

#[test]
fn try_verify_marks_an_unreadable_certificate() {
    let leaf = h(LEAF_DER);
    let cut = leaf[..50].to_vec();
    assert_eq!(try_verify_cert_chain(&[cut.clone(), h(ROOT_DER)], &root_hash()), None);
    assert_eq!(try_verify_cert_chain(&chain(), &root_hash()), Some(true));
    assert_eq!(try_verify_cert_chain(&[], &root_hash()), Some(false));
    assert_eq!(
        try_verify_tls_handshake(&[h(HS_MSGS)], &h(CLIENT_HELLO), &[cut, h(ROOT_DER)], &root_hash()),
        None
    );
}

#[test]
fn handshake_needs_a_certificate_verify_message() {
    let records = vec![h(SERVER_HELLO), h(HS_MSGS)];
    assert!(verify_tls_handshake(&records, &h(CLIENT_HELLO), &chain(), &root_hash()));
    let without = vec![h(SERVER_HELLO), vec![8, 0, 0, 2, 0, 1]];
    assert!(!verify_tls_handshake(&without, &h(CLIENT_HELLO), &chain(), &root_hash()));
    assert_eq!(
        try_verify_tls_handshake(&records, &h(CLIENT_HELLO), &chain(), &root_hash()),
        Some(true)
    );
}

#[test]
fn a_certificate_verify_message_must_carry_a_valid_signature() {
    // A message of type 15 whose signature does not verify is refused.
    let forged = vec![h(SERVER_HELLO), h(HS_BADSIG)];
    assert!(!verify_tls_handshake(&forged, &h(CLIENT_HELLO), &chain(), &root_hash()));
    let bare = vec![vec![15, 0, 0, 4, 4, 3, 0, 0]];
    assert!(!verify_tls_handshake(&bare, &h(CLIENT_HELLO), &chain(), &root_hash()));
}

#[test]
fn the_signature_covers_the_whole_transcript() {
    let records = vec![h(SERVER_HELLO), h(HS_MSGS)];
    let mut other_hello = h(CLIENT_HELLO);
    other_hello[4] ^= 1;
    assert!(!verify_tls_handshake(&records, &other_hello, &chain(), &root_hash()));
    // The same messages framed in one record give the same transcript.
    let mut joined = h(SERVER_HELLO);
    joined.extend(h(HS_MSGS));
    assert!(verify_tls_handshake(&[joined], &h(CLIENT_HELLO), &chain(), &root_hash()));
    // Without the server's hello the transcript differs.
    assert!(!verify_tls_handshake(&[h(HS_MSGS)], &h(CLIENT_HELLO), &chain(), &root_hash()));
}

#[test]
fn handshake_refuses_an_unpinned_chain() {
    let records = vec![h(SERVER_HELLO), h(HS_MSGS)];
    let mut other = root_hash();
    other[0] ^= 1;
    assert!(!verify_tls_handshake(&records, &h(CLIENT_HELLO), &chain(), &other));
}
