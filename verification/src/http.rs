//! The HTTP response that a TLS session carried: its body, and a numeric
//! field of that body read as JSON.

use vstd::prelude::*;
use vstd::string::*;
use vstd::utf8::*;

verus! {

broadcast use vstd::utf8::is_char_boundary_iff_not_is_continuation_byte;

/// The bytes "\r\n\r\n" that close the header block of an HTTP message.
pub open spec fn header_end_marker() -> Seq<u8> {
    seq![13u8, 10, 13, 10]
}

/// The marker stands at byte `i` of `d`.
pub open spec fn marker_at(d: Seq<u8>, i: int) -> bool {
    0 <= i && i + 4 <= d.len() && d.subrange(i, i + 4) == header_end_marker()
}

/// The first position from `i` on where the marker stands.
pub open spec fn spec_find_marker_from(d: Seq<u8>, i: int) -> Option<int>
    decreases d.len() - i,
{
    if i < 0 || i + 4 > d.len() {
        None
    } else if marker_at(d, i) {
        Some(i)
    } else {
        spec_find_marker_from(d, i + 1)
    }
}

/// The body of an HTTP response held in `data`: the bytes after the first
/// "\r\n\r\n", where `data` is valid UTF-8 and holds that marker.
pub open spec fn spec_http_body(data: Seq<u8>) -> Option<Seq<u8>> {
    if !valid_utf8(data) {
        None
    } else {
        match spec_find_marker_from(data, 0) {
            None => None,
            Some(i) => Some(data.subrange(i + 4, data.len() as int)),
        }
    }
}

/// `core::str::from_utf8`: `Some` exactly for valid UTF-8, with the same
/// bytes.
#[verifier::external_body]
pub(crate) fn str_from_utf8(data: &[u8]) -> (s: Option<&str>)
    ensures
        s is Some <==> valid_utf8(data@),
        s matches Some(s) ==> s.spec_bytes() == data@,
{
    core::str::from_utf8(data).ok()
}

/// In valid UTF-8, the byte after an ASCII byte that starts a character
/// starts the next one.
pub proof fn lemma_boundary_after_ascii(b: Seq<u8>, i: int)
    requires
        valid_utf8(b),
        0 <= i < b.len(),
        is_char_boundary(b, i),
        b[i] < 0x80,
    ensures
        is_char_boundary(b, i + 1),
    decreases b.len(),
{
    reveal_with_fuel(is_char_boundary, 2);
    let l = length_of_first_scalar(b);
    let pop = pop_first_scalar(b);
    if i == 0 {
        assert(l == 1);
        assert(is_char_boundary(pop, 0));
    } else {
        assert(is_char_boundary(pop, i - l));
        assert(valid_utf8(pop));
        assert(pop[i - l] == b[i]);
        lemma_boundary_after_ascii(pop, i - l);
    }
}

/// What the search finds is a marker, and no earlier one stands before it.
pub proof fn lemma_find_marker(d: Seq<u8>, i: int)
    requires
        0 <= i,
    ensures
        spec_find_marker_from(d, i) matches Some(k) ==> marker_at(d, k) && i <= k && forall|j: int|
            i <= j < k ==> !marker_at(d, j),
        spec_find_marker_from(d, i) is None ==> forall|j: int| i <= j ==> !marker_at(d, j),
    decreases d.len() - i,
{
    if i + 4 > d.len() {
    } else if marker_at(d, i) {
    } else {
        lemma_find_marker(d, i + 1);
    }
}

/// The first position from `from` on where "\r\n\r\n" stands in `d`.
pub(crate) fn find_marker(d: &[u8], from: usize) -> (r: Option<usize>)
    requires
        from <= d@.len(),
    ensures
        r is None <==> spec_find_marker_from(d@, from as int) is None,
        r matches Some(i) ==> spec_find_marker_from(d@, from as int) == Some(i as int),
    decreases d@.len() - from,
{
    let mut i = from;
    while i < d.len() && d.len() - i >= 4
        invariant
            from <= i <= d@.len(),
            spec_find_marker_from(d@, from as int) == spec_find_marker_from(d@, i as int),
        decreases d@.len() - i,
    {
        if d[i] == 13 && d[i + 1] == 10 && d[i + 2] == 13 && d[i + 3] == 10 {
            assert(d@.subrange(i as int, i + 4) =~= header_end_marker());
            return Some(i);
        }
        assert(!marker_at(d@, i as int));
        i += 1;
    }
    None
}

/// The body of an HTTP response: what follows the first "\r\n\r\n". `None`
/// where the response is not valid UTF-8 or has no such marker.
pub fn parse_http_response(data: &[u8]) -> (body: Option<&str>)
    ensures
        match spec_http_body(data@) {
            None => body is None,
            Some(b) => body is Some && body.unwrap().spec_bytes() == b,
        },
{
    let resp = str_from_utf8(data)?;
    let bytes = resp.as_bytes();
    let found = find_marker(bytes, 0);
    if found.is_none() {
        return None;
    }
    let start = found.unwrap();
    proof {
        let b = bytes@;
        lemma_find_marker(b, 0);
        assert(marker_at(b, start as int));
        assert(b[start + 3] == b.subrange(start as int, start + 4)[3]);
        assert(b == data@);
        assert(valid_utf8(b));
        assert(b[start + 3] == 10);
        assert(!is_continuation_byte(b[start + 3]));
        assert(is_char_boundary(b, start + 3));
        lemma_boundary_after_ascii(b, start + 3);
        assert(start + 4 <= bytes@.len());
    }
    let n = bytes.len();
    assert(start + 4 <= n);
    let (_, rest) = resp.split_at(start + 4);
    Some(rest)
}

/// The unsigned integer at key `path` of the JSON object `body`: `None`
/// where `body` is no JSON, has no such key, or the value there is no
/// integer in `u64`.
pub uninterp spec fn json_u64_field(body: Seq<char>, path: Seq<char>) -> Option<u64>;

/// `serde_json::from_str` into a `Value`, `Value::get(path)` and
/// `Value::as_u64`: the contract names the outcome for the two strings.
#[verifier::external_body]
fn json_field_u64(body: &str, path: &str) -> (v: Option<u64>)
    ensures
        v == json_u64_field(body@, path@),
{
    let json: serde_json::Value = serde_json::from_str(body).ok()?;
    json.get(path)?.as_u64()
}

/// Reads the unsigned integer at key `path` of the JSON object `body`.
pub fn extract_json_field(body: &str, path: &str) -> (v: Option<u64>)
    ensures
        v == json_u64_field(body@, path@),
{
    json_field_u64(body, path)
}

/// The search from `i` finds `k` where the marker first stands at `k`.
proof fn lemma_find_marker_at(d: Seq<u8>, i: int, k: int)
    requires
        0 <= i <= k,
        marker_at(d, k),
        forall|j: int| i <= j < k ==> !marker_at(d, j),
    ensures
        spec_find_marker_from(d, i) == Some(k),
    decreases k - i,
{
    if i < k {
        lemma_find_marker_at(d, i + 1, k);
    }
}

/// The body of a response is what follows its header block: where `head`
/// holds no "\r\n\r\n" (not even one that runs into the marker that
/// follows it), the body of `head` + "\r\n\r\n" + `body` is `body`.
pub proof fn lemma_http_body_after_headers(head: Seq<u8>, body: Seq<u8>)
    requires
        valid_utf8(head + header_end_marker() + body),
        forall|i: int| 0 <= i < head.len() ==> !marker_at(head + header_end_marker() + body, i),
    ensures
        spec_http_body(head + header_end_marker() + body) == Some(body),
{
    let d = head + header_end_marker() + body;
    let k = head.len() as int;
    assert(d.subrange(k, k + 4) =~= header_end_marker());
    lemma_find_marker_at(d, 0, k);
    assert(d.subrange(k + 4, d.len() as int) =~= body);
}

} // verus!
