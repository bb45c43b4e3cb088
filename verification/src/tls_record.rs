//! Framing of TLS records: a 5-byte header (content type, protocol version,
//! big-endian length) followed by the record's payload.

use vstd::prelude::*;

verus! {

/// Content type of a handshake record.
pub const CONTENT_TYPE_HANDSHAKE: u8 = 22;

/// Content type of an application-data record.
pub const CONTENT_TYPE_APPLICATION_DATA: u8 = 23;

/// Handshake message type of CertificateVerify.
pub const HANDSHAKE_TYPE_CERTIFICATE_VERIFY: u8 = 15;

/// The record-layer version that every TLS 1.2/1.3 record carries.
pub const EXPECTED_TLS_VERSION: u16 = 0x0303;

/// One TLS record: its content type and a view of its payload.
pub struct TlsRecord<'a> {
    pub content_type: u8,
    pub data: &'a [u8],
}

impl<'a> View for TlsRecord<'a> {
    type V = (u8, Seq<u8>);

    open spec fn view(&self) -> (u8, Seq<u8>) {
        (self.content_type, self.data@)
    }
}

/// The big-endian 16-bit number made of two bytes.
pub open spec fn be16(hi: u8, lo: u8) -> int {
    hi as int * 256 + lo as int
}

/// The records framed in `data` from byte `offset` on. Framing stops at the
/// first header that is cut short, carries another version than 0x0303, or
/// announces more payload than is left.
pub open spec fn spec_records_from(data: Seq<u8>, offset: int) -> Seq<(u8, Seq<u8>)>
    decreases data.len() - offset,
{
    if offset < 0 || offset + 5 > data.len() {
        seq![]
    } else if be16(data[offset + 1], data[offset + 2]) != EXPECTED_TLS_VERSION as int {
        seq![]
    } else {
        let len = be16(data[offset + 3], data[offset + 4]);
        let end = offset + 5 + len;
        if end > data.len() {
            seq![]
        } else {
            seq![(data[offset], data.subrange(offset + 5, end))] + spec_records_from(data, end)
        }
    }
}

/// The records framed in a whole capture.
pub open spec fn spec_records(data: Seq<u8>) -> Seq<(u8, Seq<u8>)> {
    spec_records_from(data, 0)
}

/// The views of a sequence of records.
pub open spec fn record_views<'a>(records: Seq<TlsRecord<'a>>) -> Seq<(u8, Seq<u8>)> {
    records.map_values(|r: TlsRecord<'a>| r@)
}

/// Splits a stream of TLS records into its records, stopping at the first
/// malformed or truncated header.
pub fn parse_tls_records<'a>(data: &'a [u8]) -> (records: Vec<TlsRecord<'a>>)
    ensures
        record_views(records@) == spec_records(data@),
{
    let mut records: Vec<TlsRecord<'a>> = Vec::new();
    let mut offset: usize = 0;
    loop
        invariant
            offset <= data@.len(),
            record_views(records@) + spec_records_from(data@, offset as int) == spec_records(data@),
        decreases data@.len() - offset,
    {
        if data.len() < 5 || offset > data.len() - 5 {
            assert(spec_records_from(data@, offset as int) == Seq::<(u8, Seq<u8>)>::empty());
            assert(record_views(records@) + seq![] =~= record_views(records@));
            return records;
        }
        let content_type = data[offset];
        let version: usize = (data[offset + 1] as usize) * 256 + (data[offset + 2] as usize);
        if version != 0x0303 {
            assert(record_views(records@) + seq![] =~= record_views(records@));
            return records;
        }
        let length: usize = (data[offset + 3] as usize) * 256 + (data[offset + 4] as usize);
        if length > data.len() - offset - 5 {
            assert(record_views(records@) + seq![] =~= record_views(records@));
            return records;
        }
        let end: usize = offset + 5 + length;
        let payload = &data[offset + 5..end];
        let ghost old_views = record_views(records@);
        records.push(TlsRecord { content_type, data: payload });
        assert(record_views(records@) =~= old_views.push((content_type, payload@)));
        assert(spec_records_from(data@, offset as int) == seq![(content_type, payload@)]
            + spec_records_from(data@, end as int));
        assert(old_views.push((content_type, payload@)) + spec_records_from(data@, end as int)
            =~= old_views + (seq![(content_type, payload@)] + spec_records_from(data@, end as int)));
        offset = end;
    }
}

/// The bytes of one record: its header (content type, version 0x0303,
/// big-endian payload length) and its payload.
pub open spec fn spec_encode_record(r: (u8, Seq<u8>)) -> Seq<u8> {
    seq![r.0, 3u8, 3u8, (r.1.len() / 256) as u8, (r.1.len() % 256) as u8] + r.1
}

/// The bytes of a sequence of records, one after the other.
pub open spec fn spec_encode_records(rs: Seq<(u8, Seq<u8>)>) -> Seq<u8>
    decreases rs.len(),
{
    if rs.len() == 0 {
        seq![]
    } else {
        spec_encode_record(rs[0]) + spec_encode_records(rs.drop_first())
    }
}

/// Framing ahead of a prefix reads the bytes after it alone.
proof fn lemma_records_shift(p: Seq<u8>, s: Seq<u8>, i: int)
    requires
        0 <= i,
    ensures
        spec_records_from(p + s, p.len() + i) == spec_records_from(s, i),
    decreases s.len() - i,
{
    let d = p + s;
    let o = p.len() + i;
    if i + 5 > s.len() {
    } else {
        assert(d[o] == s[i]);
        assert(d[o + 1] == s[i + 1]);
        assert(d[o + 2] == s[i + 2]);
        assert(d[o + 3] == s[i + 3]);
        assert(d[o + 4] == s[i + 4]);
        let len = be16(s[i + 3], s[i + 4]);
        if be16(s[i + 1], s[i + 2]) == EXPECTED_TLS_VERSION as int && i + 5 + len <= s.len() {
            assert(d.subrange(o + 5, o + 5 + len) =~= s.subrange(i + 5, i + 5 + len));
            lemma_records_shift(p, s, i + 5 + len);
        }
    }
}

/// Framing reads back the records it is given: for records whose payloads
/// are shorter than 2^16 bytes, framing their bytes yields them again.
pub proof fn lemma_records_roundtrip(rs: Seq<(u8, Seq<u8>)>)
    requires
        forall|i: int| 0 <= i < rs.len() ==> #[trigger] rs[i].1.len() < 65536,
    ensures
        spec_records(spec_encode_records(rs)) == rs,
    decreases rs.len(),
{
    if rs.len() == 0 {
        assert(spec_records(spec_encode_records(rs)) =~= rs);
    } else {
        let r = rs[0];
        let head = spec_encode_record(r);
        let rest = rs.drop_first();
        let d = head + spec_encode_records(rest);
        assert(spec_encode_records(rs) == d);
        let len = r.1.len() as int;
        assert(rs[0].1.len() < 65536);
        assert((len / 256) * 256 + len % 256 == len) by (nonlinear_arith)
            requires
                0 <= len < 65536,
        ;
        assert(0 <= len / 256 < 256) by (nonlinear_arith)
            requires
                0 <= len < 65536,
        ;
        assert(d[1] == 3 && d[2] == 3);
        assert(d[3] == (len / 256) as u8 && d[4] == (len % 256) as u8);
        assert(be16(d[3], d[4]) == len);
        assert(d.subrange(5, 5 + len) =~= r.1);
        assert forall|i: int| 0 <= i < rest.len() implies #[trigger] rest[i].1.len() < 65536 by {
            assert(rest[i] == rs[i + 1]);
        }
        lemma_records_roundtrip(rest);
        lemma_records_shift(head, spec_encode_records(rest), 0);
        assert(head.len() == 5 + len);
        assert(spec_records_from(d, 0) == seq![(r.0, r.1)] + spec_records_from(d, 5 + len));
        assert(spec_records(spec_encode_records(rs)) =~= rs);
    }
}

/// Framing reads only what stands in the input: re-encoding the records
/// framed in `data` gives a prefix of `data`.
pub proof fn lemma_records_prefix(data: Seq<u8>)
    ensures
        ({
            let e = spec_encode_records(spec_records(data));
            e.len() <= data.len() && data.subrange(0, e.len() as int) == e
        }),
{
    lemma_records_prefix_from(data, 0);
}

/// From any offset, re-encoding the framed records gives the bytes that
/// follow the offset.
proof fn lemma_records_prefix_from(data: Seq<u8>, off: int)
    requires
        0 <= off,
    ensures
        ({
            let e = spec_encode_records(spec_records_from(data, off));
            off + e.len() <= data.len() || e.len() == 0
        }),
        ({
            let e = spec_encode_records(spec_records_from(data, off));
            e.len() > 0 ==> data.subrange(off, off + e.len()) == e
        }),
    decreases data.len() - off,
{
    let rs = spec_records_from(data, off);
    if off + 5 > data.len() {
    } else if be16(data[off + 1], data[off + 2]) != EXPECTED_TLS_VERSION as int {
    } else {
        let len = be16(data[off + 3], data[off + 4]);
        let end = off + 5 + len;
        if end > data.len() {
        } else {
            lemma_records_prefix_from(data, end);
            let r = (data[off], data.subrange(off + 5, end));
            assert(rs[0] == r);
            assert(rs.drop_first() =~= spec_records_from(data, end));
            let hi = data[off + 3] as int;
            let lo = data[off + 4] as int;
            assert((hi * 256 + lo) / 256 == hi && (hi * 256 + lo) % 256 == lo) by (nonlinear_arith)
                requires
                    0 <= hi < 256,
                    0 <= lo < 256,
            ;
            assert(data[off + 1] == 3 && data[off + 2] == 3) by (nonlinear_arith)
                requires
                    data[off + 1] as int * 256 + data[off + 2] as int == 0x0303,
            ;
            let head = spec_encode_record(r);
            assert(head =~= data.subrange(off, end));
            let tail = spec_encode_records(spec_records_from(data, end));
            assert(spec_encode_records(rs) == head + tail);
            if tail.len() > 0 {
                assert(data.subrange(off, end + tail.len()) =~= data.subrange(off, end) + data.subrange(
                    end,
                    end + tail.len(),
                ));
            } else {
                assert(head + tail =~= head);
            }
        }
    }
}

/// Framing from `off` on in a prefix of `data` (its first `k` bytes) gives
/// records that the whole of `data` frames at the same places.
proof fn lemma_records_from_of_prefix(data: Seq<u8>, k: int, off: int)
    requires
        0 <= k <= data.len(),
    ensures
        ({
            let p = spec_records_from(data.subrange(0, k), off);
            let w = spec_records_from(data, off);
            p.len() <= w.len() && p == w.subrange(0, p.len() as int)
        }),
    decreases k - off,
{
    let d = data.subrange(0, k);
    let p = spec_records_from(d, off);
    let w = spec_records_from(data, off);
    if off < 0 || off + 5 > k {
        assert(p =~= Seq::<(u8, Seq<u8>)>::empty());
        assert(w.subrange(0, 0) =~= Seq::<(u8, Seq<u8>)>::empty());
    } else {
        assert(d[off + 1] == data[off + 1] && d[off + 2] == data[off + 2]);
        assert(d[off + 3] == data[off + 3] && d[off + 4] == data[off + 4] && d[off] == data[off]);
        let len = be16(data[off + 3], data[off + 4]);
        let end = off + 5 + len;
        if be16(data[off + 1], data[off + 2]) != EXPECTED_TLS_VERSION as int || end > k {
            assert(p =~= Seq::<(u8, Seq<u8>)>::empty());
            assert(w.subrange(0, 0) =~= Seq::<(u8, Seq<u8>)>::empty());
        } else {
            assert(d.subrange(off + 5, end) =~= data.subrange(off + 5, end));
            lemma_records_from_of_prefix(data, k, end);
            let pr = spec_records_from(d, end);
            let wr = spec_records_from(data, end);
            assert(p == seq![(data[off], data.subrange(off + 5, end))] + pr);
            assert(w == seq![(data[off], data.subrange(off + 5, end))] + wr);
            assert(p =~= w.subrange(0, p.len() as int));
        }
    }
}

/// Framing a prefix of a capture gives a prefix of the framing of the
/// whole: the records of the first `k` bytes are the first records of all
/// the bytes.
pub proof fn lemma_records_of_prefix(data: Seq<u8>, k: int)
    requires
        0 <= k <= data.len(),
    ensures
        spec_records(data.subrange(0, k)).len() <= spec_records(data).len(),
        spec_records(data.subrange(0, k)) == spec_records(data).subrange(
            0,
            spec_records(data.subrange(0, k)).len() as int,
        ),
{
    lemma_records_from_of_prefix(data, k, 0);
}

} // verus!
