use agent_marketplace::spki::extract_spki_der_host;

const ROOT_DER: &str = "308201293081d0a003020102020101300a06082a8648ce3d04030230143112301006035504030c095465737420526f6f74301e170d3234303130313030303030305a170d3334303130313030303030305a30143112301006035504030c095465737420526f6f743059301306072a8648ce3d020106082a8648ce3d030107034200042d562a617e9dfb0437d6613a0386fbb9c2418e8e8957d4d7a9fd7b151888327a38ecd7d9b6b166746d85b974fb8a6b9fd2bab38b9a40eddb6008a380d0786ccfa3133011300f0603551d130101ff040530030101ff300a06082a8648ce3d0403020348003045022100b95713d2eac88e483a61a87a4fd07c24d6344fc965e9f5de06e9640598c2606602202292d5afc85a3c1e16d7d07d602eb7c1be890da3bf78831eb42e358910225e05";
const LEAF_DER: &str = "3082011a3081c1a003020102020102300a06082a8648ce3d04030230143112301006035504030c095465737420526f6f74301e170d3234303130313030303030305a170d3334303130313030303030305a301a3118301606035504030c0f6170692e6578616d706c652e636f6d3059301306072a8648ce3d020106082a8648ce3d0301070342000477881b1cde03e91ce37ac8d28150ee122e3bdb24179a8541f3a1f910bbffe45391213e85a144c2d810845b0b2af06e4e8695ea60513bf1f3e9358ff861899d02300a06082a8648ce3d0403020348003045022011e69d19463c2c43e1227e3d687b43705f0c565d09c1b49f5de899d1da56a1520221009687777bd112db4ea340c800159eee901e6a06ac61e2b9d07b5f913b5361f66a";
const ROOT_SPKI: &str = "3059301306072a8648ce3d020106082a8648ce3d030107034200042d562a617e9dfb0437d6613a0386fbb9c2418e8e8957d4d7a9fd7b151888327a38ecd7d9b6b166746d85b974fb8a6b9fd2bab38b9a40eddb6008a380d0786ccf";

fn h(s: &str) -> Vec<u8> {
    hex::decode(s).unwrap()
}

#[test]
fn extracts_the_root_key_info_with_its_header() {
    assert_eq!(extract_spki_der_host(&h(ROOT_DER)).unwrap(), h(ROOT_SPKI));
}

#[test]
fn extracts_the_leaf_key_info() {
    let spki = extract_spki_der_host(&h(LEAF_DER)).unwrap();
    assert_eq!(spki.len(), 91);
    assert_eq!(&spki[..2], &[0x30, 0x59]);
}

#[test]
fn refuses_what_is_no_certificate() {
    assert!(extract_spki_der_host(&[]).is_none());
    assert!(extract_spki_der_host(&[0x31, 0x00]).is_none());
    assert!(extract_spki_der_host(&[0x30, 0x05, 0x01]).is_none());
}

#[test]
fn refuses_a_truncated_certificate() {
    let der = h(ROOT_DER);
    assert!(extract_spki_der_host(&der[..der.len() - 1]).is_none());
}

#[test]
fn refuses_a_length_beyond_the_remaining_bytes() {
    let mut der = vec![0x30, 0x88];
    der.extend_from_slice(&[0xff; 8]);
    assert!(extract_spki_der_host(&der).is_none());
    der.extend_from_slice(&[0, 0]);
    assert!(extract_spki_der_host(&der).is_none());
    // A nine-byte length of 2^64 is not read as zero.
    let mut wide = vec![0x30, 0x89, 0x01];
    wide.extend_from_slice(&[0; 8]);
    assert!(extract_spki_der_host(&wide).is_none());
}

#[test]
fn both_walkers_find_the_same_key() {
    // The key info located by skipping headers ends in the BIT STRING whose
    // point the certificate reader returns.
    for der in [h(LEAF_DER), h(ROOT_DER)] {
        let spki = extract_spki_der_host(&der).unwrap();
        let (key, _, _, _, _) = agent_marketplace::der::parse_cert(&der).unwrap();
        assert_eq!(&spki[spki.len() - 64..], &key.point[..]);
        assert_eq!(spki[spki.len() - 65], 0x04);
    }
}

#[test]
fn a_short_header_frames_its_value() {
    // A SEQUENCE holding one INTEGER, both in short form, is no certificate
    // but is walked to its end.
    let der = [0x30, 0x03, 0x02, 0x01, 0x05];
    assert!(extract_spki_der_host(&der).is_none());
}
