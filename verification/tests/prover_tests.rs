use agent_marketplace::prover::{body_hash_hex, body_preview, fallback_response, root_spki_hash};

const LEAF_DER: &str = "3082011a3081c1a003020102020102300a06082a8648ce3d04030230143112301006035504030c095465737420526f6f74301e170d3234303130313030303030305a170d3334303130313030303030305a301a3118301606035504030c0f6170692e6578616d706c652e636f6d3059301306072a8648ce3d020106082a8648ce3d0301070342000477881b1cde03e91ce37ac8d28150ee122e3bdb24179a8541f3a1f910bbffe45391213e85a144c2d810845b0b2af06e4e8695ea60513bf1f3e9358ff861899d02300a06082a8648ce3d0403020348003045022011e69d19463c2c43e1227e3d687b43705f0c565d09c1b49f5de899d1da56a1520221009687777bd112db4ea340c800159eee901e6a06ac61e2b9d07b5f913b5361f66a";
const ROOT_DER: &str = "308201293081d0a003020102020101300a06082a8648ce3d04030230143112301006035504030c095465737420526f6f74301e170d3234303130313030303030305a170d3334303130313030303030305a30143112301006035504030c095465737420526f6f743059301306072a8648ce3d020106082a8648ce3d030107034200042d562a617e9dfb0437d6613a0386fbb9c2418e8e8957d4d7a9fd7b151888327a38ecd7d9b6b166746d85b974fb8a6b9fd2bab38b9a40eddb6008a380d0786ccfa3133011300f0603551d130101ff040530030101ff300a06082a8648ce3d0403020348003045022100b95713d2eac88e483a61a87a4fd07c24d6344fc965e9f5de06e9640598c2606602202292d5afc85a3c1e16d7d07d602eb7c1be890da3bf78831eb42e358910225e05";
const ROOT_SPKI_HASH: &str = "ba1fd6f4157985e7327e4c2d4fdcc996919cdde0bb3ae3026c21b0e0cab22280";

fn h(s: &str) -> Vec<u8> {
    hex::decode(s).unwrap()
}

#[test]
fn the_root_hash_pins_the_last_certificate() {
    let chain = vec![h(LEAF_DER), h(ROOT_DER)];
    assert_eq!(root_spki_hash(&chain).unwrap().to_vec(), h(ROOT_SPKI_HASH));
    assert!(root_spki_hash(&vec![vec![0x31, 0x00]]).is_none());
}

#[test]
fn the_fallback_wraps_the_body_as_json_response() {
    assert_eq!(
        fallback_response("{\"a\":1}"),
        "HTTP/1.1 200 OK\r\nContent-Type: application/json\r\n\r\n{\"a\":1}"
    );
}

#[test]
fn a_short_body_is_previewed_whole() {
    assert_eq!(body_preview("abc"), "abc");
    let exactly: String = "é".repeat(200);
    assert_eq!(body_preview(&exactly), exactly);
}

#[test]
fn a_long_body_is_cut_at_200_characters() {
    let long: String = "é".repeat(250);
    let p = body_preview(&long);
    assert_eq!(p, format!("{}...", "é".repeat(200)));
}

#[test]
fn the_body_hash_is_lowercase_sha256_hex() {
    assert_eq!(
        body_hash_hex("abc"),
        "ba7816bf8f01cfea414140de5dae2223b00361a396177a9cb410ff61f20015ad"
    );
}
