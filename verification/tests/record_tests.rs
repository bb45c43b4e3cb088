use agent_marketplace::record::{decrypt_record, unwrap_inner_plaintext};
use agent_marketplace::tls_record::TlsRecord;

const APP_KEY: &str = "c3e8915ce39d89c72f6682d2b26e922e46685b057cdbeb9d2bd5a90901c2bdb1";
const APP_IV: &str = "9a880293f17219885617ec6f";
const REC_SEQ5: &str = "303d9db536c472bca91e95bd9f5d10acacc6cb60e77656f3";

fn h(s: &str) -> Vec<u8> {
    hex::decode(s).unwrap()
}

fn key() -> [u8; 32] {
    let mut a = [0u8; 32];
    a.copy_from_slice(&h(APP_KEY));
    a
}

fn iv() -> [u8; 12] {
    let mut a = [0u8; 12];
    a.copy_from_slice(&h(APP_IV));
    a
}

#[test]
fn opens_a_record_at_its_sequence_number() {
    let payload = h(REC_SEQ5);
    let rec = TlsRecord { content_type: 23, data: &payload };
    let (data, ty) = decrypt_record(&key(), &iv(), 5, &rec).unwrap();
    assert_eq!(data, b"ping".to_vec());
    assert_eq!(ty, 23);
}

#[test]
fn refuses_a_record_under_another_sequence_number() {
    let payload = h(REC_SEQ5);
    let rec = TlsRecord { content_type: 23, data: &payload };
    assert!(decrypt_record(&key(), &iv(), 4, &rec).is_none());
    assert!(decrypt_record(&key(), &iv(), 0, &rec).is_none());
}

#[test]
fn refuses_a_tampered_record() {
    let mut payload = h(REC_SEQ5);
    payload[0] ^= 0x80;
    let rec = TlsRecord { content_type: 23, data: &payload };
    assert!(decrypt_record(&key(), &iv(), 5, &rec).is_none());
}

#[test]
fn refuses_a_record_shorter_than_its_tag() {
    let payload = vec![1u8, 2, 3];
    let rec = TlsRecord { content_type: 23, data: &payload };
    assert!(decrypt_record(&key(), &iv(), 0, &rec).is_none());
}

#[test]
fn inner_plaintext_strips_padding_before_the_type() {
    assert_eq!(unwrap_inner_plaintext(&[1, 2, 0, 0, 22]), Some((vec![1, 2], 22)));
    assert_eq!(unwrap_inner_plaintext(&[0, 0, 23]), Some((vec![], 23)));
    assert_eq!(unwrap_inner_plaintext(&[23]), Some((vec![], 23)));
    assert_eq!(unwrap_inner_plaintext(&[]), None);
}

#[test]
fn inner_plaintext_round_trip() {
    let content = vec![9u8, 0, 7];
    for n in 0..4 {
        let mut pt = content.clone();
        pt.extend(std::iter::repeat(0u8).take(n));
        pt.push(21);
        assert_eq!(unwrap_inner_plaintext(&pt), Some((content.clone(), 21)));
    }
}
