use agent_marketplace::tls_record::{parse_tls_records, CONTENT_TYPE_HANDSHAKE};

fn record(ct: u8, payload: &[u8]) -> Vec<u8> {
    let mut v = vec![ct, 3, 3, (payload.len() >> 8) as u8, payload.len() as u8];
    v.extend_from_slice(payload);
    v
}

#[test]
fn parses_consecutive_records() {
    let mut data = record(22, &[1, 2, 3]);
    data.extend(record(23, &[9; 300]));
    let recs = parse_tls_records(&data);
    assert_eq!(recs.len(), 2);
    assert_eq!(recs[0].content_type, CONTENT_TYPE_HANDSHAKE);
    assert_eq!(recs[0].data, &[1, 2, 3]);
    assert_eq!(recs[1].content_type, 23);
    assert_eq!(recs[1].data.len(), 300);
}

#[test]
fn encoding_records_and_parsing_gives_them_back() {
    let recs: Vec<(u8, Vec<u8>)> = vec![(22, vec![]), (20, vec![1]), (23, vec![0xab; 70000 % 65536])];
    let mut data = Vec::new();
    for (t, p) in &recs {
        data.extend(record(*t, p));
    }
    let parsed = parse_tls_records(&data);
    assert_eq!(parsed.len(), recs.len());
    for (r, (t, p)) in parsed.iter().zip(recs.iter()) {
        assert_eq!(r.content_type, *t);
        assert_eq!(r.data, &p[..]);
    }
}

#[test]
fn parsing_stops_at_a_truncated_record() {
    let mut data = record(22, &[1, 2, 3]);
    let tail = record(23, &[5; 10]);
    data.extend_from_slice(&tail[..8]);
    let recs = parse_tls_records(&data);
    assert_eq!(recs.len(), 1);
    assert_eq!(recs[0].data, &[1, 2, 3]);
}

#[test]
fn parsing_stops_at_another_version() {
    let mut data = record(22, &[1]);
    data.extend_from_slice(&[23, 3, 1, 0, 1, 9]);
    data.extend(record(23, &[2]));
    let recs = parse_tls_records(&data);
    assert_eq!(recs.len(), 1);
}

#[test]
fn parsing_nothing_gives_nothing() {
    assert!(parse_tls_records(&[]).is_empty());
    assert!(parse_tls_records(&[22, 3, 3, 0]).is_empty());
}

#[test]
fn reencoding_the_parsed_records_gives_a_prefix_of_the_input() {
    let mut data = record(22, &[1, 2]);
    data.extend(record(23, &[3]));
    data.extend_from_slice(&[0xff, 0xfe]);
    let recs = parse_tls_records(&data);
    let mut again = Vec::new();
    for r in &recs {
        again.extend(record(r.content_type, r.data));
    }
    assert!(data.starts_with(&again));
    assert_eq!(again.len(), data.len() - 2);
}

#[test]
fn framing_a_prefix_gives_a_prefix_of_the_records() {
    let mut data = record(22, &[1, 2]);
    data.extend(record(23, &[3, 4, 5]));
    data.extend(record(23, &[6]));
    let all = parse_tls_records(&data);
    for k in 0..=data.len() {
        let part = parse_tls_records(&data[..k]);
        assert!(part.len() <= all.len());
        for (a, b) in part.iter().zip(all.iter()) {
            assert_eq!(a.content_type, b.content_type);
            assert_eq!(a.data, b.data);
        }
    }
}
