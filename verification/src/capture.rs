//! What the prover keeps of a captured HTTPS exchange: the session data fed
//! to the proving program, the traffic secrets logged during the handshake,
//! the request it sends, and the body of the response it reads.

use vstd::prelude::*;
use vstd::string::*;
use vstd::utf8::*;

use crate::encoding::hex_value;
use crate::http::{lemma_boundary_after_ascii, lemma_find_marker, marker_at, spec_find_marker_from};
use crate::models::{ascii_lowercase, opt_view, spec_lowercase, to_lowercase};

verus! {

broadcast use {
    vstd::utf8::is_char_boundary_start_end_of_seq,
    vstd::utf8::encode_utf8_valid_utf8,
    vstd::utf8::encode_utf8_decode_utf8,
    vstd::utf8::is_char_boundary_iff_not_is_continuation_byte,
};

/// Captured TLS session data, the private input of the proving program.
pub struct TlsSessionData {
    pub server_name: String,
    pub server_cert_chain: Vec<Vec<u8>>,
    /// The client's ClientHello message, with which the handshake transcript
    /// starts.
    pub client_hello: Vec<u8>,
    pub server_handshake_traffic_secret: Vec<u8>,
    pub server_application_traffic_secret: Vec<u8>,
    /// Every TLS record received from the server.
    pub encrypted_records: Vec<u8>,
    pub http_request: Vec<u8>,
    pub field_path: String,
}

/// A Unicode `White_Space` character, as `char::is_whitespace` and
/// `str::trim` take it.
pub open spec fn is_unicode_space(c: char) -> bool {
    ||| '\u{9}' <= c <= '\u{d}'
    ||| c == ' '
    ||| c == '\u{85}'
    ||| c == '\u{a0}'
    ||| c == '\u{1680}'
    ||| '\u{2000}' <= c <= '\u{200a}'
    ||| c == '\u{2028}'
    ||| c == '\u{2029}'
    ||| c == '\u{202f}'
    ||| c == '\u{205f}'
    ||| c == '\u{3000}'
}

/// A text without its leading white space.
pub open spec fn spec_trim_start(s: Seq<char>) -> Seq<char>
    decreases s.len(),
{
    if s.len() > 0 && is_unicode_space(s[0]) {
        spec_trim_start(s.drop_first())
    } else {
        s
    }
}

/// A text without its trailing white space.
pub open spec fn spec_trim_end(s: Seq<char>) -> Seq<char>
    decreases s.len(),
{
    if s.len() > 0 && is_unicode_space(s.last()) {
        spec_trim_end(s.drop_last())
    } else {
        s
    }
}

/// A text without its leading and trailing white space.
pub open spec fn spec_trim(s: Seq<char>) -> Seq<char> {
    spec_trim_end(spec_trim_start(s))
}

/// `str::trim`: the text without leading and trailing `White_Space`.
#[verifier::external_body]
fn str_trim(s: &str) -> (r: &str)
    ensures
        r@ == spec_trim(s@),
{
    s.trim()
}

/// The number that hex digits denote.
pub open spec fn hex_number(b: Seq<u8>) -> nat
    decreases b.len(),
{
    if b.len() == 0 {
        0
    } else {
        hex_number(b.drop_last()) * 16 + hex_value(b.last()).unwrap() as nat
    }
}

/// What `usize::from_str_radix(_, 16)` reads from a text (its UTF-8 bytes):
/// an optional '+' and at least one hex digit of either case, denoting a
/// number that fits in `usize`.
pub open spec fn spec_parse_hex_usize(t: Seq<u8>) -> Option<usize> {
    let d = if t.len() > 0 && t[0] == 0x2b {
        t.drop_first()
    } else {
        t
    };
    if d.len() == 0 {
        None
    } else if exists|i: int| 0 <= i < d.len() && hex_value(d[i]) is None {
        None
    } else if hex_number(d) > usize::MAX {
        None
    } else {
        Some(hex_number(d) as usize)
    }
}

/// `usize::from_str_radix(s, 16)`, an error giving `None`.
#[verifier::external_body]
fn parse_hex_usize(s: &str) -> (r: Option<usize>)
    ensures
        r == spec_parse_hex_usize(s.spec_bytes()),
{
    usize::from_str_radix(s, 16).ok()
}

/// The text that `String::from_utf8_lossy` makes of bytes.
pub uninterp spec fn spec_utf8_lossy(b: Seq<u8>) -> Seq<char>;

/// `String::from_utf8_lossy(..).to_string()`: invalid sequences become
/// U+FFFD; valid UTF-8 is decoded as it is.
#[verifier::external_body]
fn utf8_lossy(b: &[u8]) -> (s: String)
    ensures
        s@ == spec_utf8_lossy(b@),
        valid_utf8(b@) ==> s@ == decode_utf8(b@),
{
    String::from_utf8_lossy(b).to_string()
}

/// A "\r\n" stands at byte `i` of `d`.
pub open spec fn crlf_at(d: Seq<u8>, i: int) -> bool {
    0 <= i && i + 2 <= d.len() && d[i] == 13 && d[i + 1] == 10
}

/// The first position from `i` on where "\r\n" stands.
pub open spec fn spec_find_crlf_from(d: Seq<u8>, i: int) -> Option<int>
    decreases d.len() - i,
{
    if i < 0 || i + 2 > d.len() {
        None
    } else if crlf_at(d, i) {
        Some(i)
    } else {
        spec_find_crlf_from(d, i + 1)
    }
}

/// What the search finds is a "\r\n" at or after `i`.
pub proof fn lemma_find_crlf(d: Seq<u8>, i: int)
    requires
        0 <= i,
    ensures
        spec_find_crlf_from(d, i) matches Some(k) ==> crlf_at(d, k) && i <= k,
    decreases d.len() - i,
{
    if i + 2 > d.len() {
    } else if crlf_at(d, i) {
    } else {
        lemma_find_crlf(d, i + 1);
    }
}

/// The first position from `from` on where "\r\n" stands in `d`.
fn find_crlf(d: &[u8], from: usize) -> (r: Option<usize>)
    requires
        from <= d@.len(),
    ensures
        r is None <==> spec_find_crlf_from(d@, from as int) is None,
        r matches Some(i) ==> spec_find_crlf_from(d@, from as int) == Some(i as int),
{
    let mut i = from;
    while i < d.len() && d.len() - i >= 2
        invariant
            from <= i <= d@.len(),
            spec_find_crlf_from(d@, from as int) == spec_find_crlf_from(d@, i as int),
        decreases d@.len() - i,
    {
        if d[i] == 13 && d[i + 1] == 10 {
            return Some(i);
        }
        i += 1;
    }
    None
}

/// The data of a chunked HTTP body from byte `start` on: each chunk is a
/// hex size line ("\r\n"-terminated, white space around the digits
/// allowed) followed by that many bytes and "\r\n". Reading stops at a
/// zero size, a size line without "\r\n" or without a number, or a chunk
/// that runs past the end. `None` where a chunk boundary falls inside a
/// character or the size leaves the machine word.
pub open spec fn spec_dechunk(b: Seq<u8>, start: int) -> Option<Seq<char>>
    decreases b.len() - start,
{
    if start < 0 || start >= b.len() {
        Some(seq![])
    } else if !is_char_boundary(b, start) {
        None
    } else {
        match spec_find_crlf_from(b, start) {
            None => Some(seq![]),
            Some(p) => {
                proof {
                    lemma_find_crlf(b, start);
                }
                let size_text = decode_utf8(b.subrange(start, p));
                match spec_parse_hex_usize(encode_utf8(spec_trim(size_text))) {
                    None => Some(seq![]),
                    Some(size) => {
                        let ds = p + 2;
                        if size == 0 {
                            Some(seq![])
                        } else if ds + size > usize::MAX {
                            None
                        } else if ds + size > b.len() {
                            Some(seq![])
                        } else if !is_char_boundary(b, ds + size) {
                            None
                        } else {
                            let next = ds + size + 2;
                            let rest = if next >= b.len() {
                                Some(seq![])
                            } else {
                                spec_dechunk(b, next)
                            };
                            match rest {
                                None => None,
                                Some(rest) => Some(decode_utf8(b.subrange(ds, ds + size)) + rest),
                            }
                        }
                    },
                }
            },
        }
    }
}

/// The part of `s` between two character boundaries.
fn substr(s: &str, from: usize, to: usize) -> (r: &str)
    requires
        from <= to <= s.spec_bytes().len(),
        is_char_boundary(s.spec_bytes(), from as int),
        is_char_boundary(s.spec_bytes(), to as int),
    ensures
        r.spec_bytes() == s.spec_bytes().subrange(from as int, to as int),
{
    let ghost b = s.spec_bytes();
    let (_, tail) = s.split_at(from);
    let ghost t = tail.spec_bytes();
    assert(t == b.subrange(from as int, b.len() as int));
    proof {
        assert(valid_utf8(t));
        assert(valid_utf8(b));
        if to - from < t.len() {
            assert(t[to - from] == b[to as int]);
            assert(!is_continuation_byte(b[to as int]));
            assert(!is_continuation_byte(t[to - from]));
            assert(is_char_boundary(t, to - from));
        } else {
            assert(is_char_boundary(t, t.len() as int));
        }
    }
    let (mid, _) = tail.split_at(to - from);
    assert(mid.spec_bytes() =~= b.subrange(from as int, to as int));
    mid
}

/// Decodes a chunked HTTP body into its data; `None` where a chunk boundary
/// falls inside a character or a chunk size leaves the machine word.
pub fn try_dechunk(raw: &str) -> (r: Option<String>)
    ensures
        match spec_dechunk(raw.spec_bytes(), 0) {
            None => r is None,
            Some(d) => r is Some && r.unwrap()@ == d,
        },
{
    let ghost b = raw.spec_bytes();
    let bytes = raw.as_bytes();
    let mut result = String::new();
    let mut chunk_start: usize = 0;
    while chunk_start < bytes.len()
        invariant
            b == raw.spec_bytes(),
            bytes@ == b,
            chunk_start < b.len() ==> spec_dechunk(b, 0) is Some ==> spec_dechunk(b, chunk_start as int) is Some,
            spec_dechunk(b, 0) is None <==> spec_dechunk(b, chunk_start as int) is None,
            spec_dechunk(b, chunk_start as int) matches Some(rest) ==> result@ + rest == spec_dechunk(b, 0).unwrap(),
        decreases b.len() - chunk_start,
    {
        if !raw.is_char_boundary(chunk_start) {
            return None;
        }
        let crlf = match find_crlf(bytes, chunk_start) {
            Some(p) => p,
            None => {
                assert(result@ + seq![] =~= result@);
                return Some(result);
            },
        };
        proof {
            lemma_find_crlf(b, chunk_start as int);
            assert(b[crlf as int] == 13);
            assert(!is_continuation_byte(b[crlf as int]));
            assert(is_char_boundary(b, crlf as int));
        }
        let size_str = substr(raw, chunk_start, crlf);
        assert(size_str@ == decode_utf8(b.subrange(chunk_start as int, crlf as int)));
        let trimmed = str_trim(size_str);
        let size = match parse_hex_usize(trimmed) {
            Some(n) => n,
            None => {
                assert(result@ + seq![] =~= result@);
                return Some(result);
            },
        };
        if size == 0 {
            assert(result@ + seq![] =~= result@);
            return Some(result);
        }
        let data_start = crlf + 2;
        if size > usize::MAX - data_start {
            return None;
        }
        if size > bytes.len() - data_start {
            assert(result@ + seq![] =~= result@);
            return Some(result);
        }
        if !raw.is_char_boundary(data_start + size) {
            return None;
        }
        proof {
            assert(b[crlf + 1] == 10);
            lemma_boundary_after_ascii(b, crlf as int);
            lemma_boundary_after_ascii(b, crlf + 1);
        }
        let piece = substr(raw, data_start, data_start + size);
        let ghost before = result@;
        result.append(piece);
        proof {
            assert(piece@ == decode_utf8(b.subrange(data_start as int, data_start + size)));
        }
        if bytes.len() - (data_start + size) <= 2 {
            assert(result@ + seq![] =~= result@);
            return Some(result);
        }
        proof {
            let rest = spec_dechunk(b, data_start + size + 2);
            if let Some(rest) = rest {
                assert(before + (piece@ + rest) =~= result@ + rest);
            }
        }
        chunk_start = data_start + size + 2;
    }
    assert(result@ + seq![] =~= result@);
    Some(result)
}

/// `pat` occurs in `h`.
pub open spec fn contains_bytes(h: Seq<u8>, pat: Seq<u8>) -> bool {
    exists|i: int| 0 <= i && i + pat.len() <= h.len() && #[trigger] h.subrange(i, i + pat.len()) == pat
}

/// Whether `pat` occurs in `h`.
fn find_pattern(h: &[u8], pat: &[u8]) -> (found: bool)
    ensures
        found == contains_bytes(h@, pat@),
{
    if pat.len() > h.len() {
        return false;
    }
    let mut i: usize = 0;
    while i <= h.len() - pat.len()
        invariant
            pat@.len() <= h@.len(),
            i <= h@.len() - pat@.len() + 1,
            forall|k: int| 0 <= k < i ==> #[trigger] h@.subrange(k, k + pat@.len()) != pat@,
        decreases h@.len() - pat@.len() + 1 - i,
    {
        let mut j: usize = 0;
        let mut same = true;
        while j < pat.len()
            invariant
                pat@.len() <= h@.len(),
                i + pat@.len() <= h.len(),
                j <= pat@.len(),
                same == (forall|m: int| 0 <= m < j ==> h@[i + m] == pat@[m]),
            decreases pat@.len() - j,
        {
            if h[i + j] != pat[j] {
                same = false;
            }
            j += 1;
        }
        if same {
            assert(h@.subrange(i as int, i + pat@.len()) =~= pat@);
            return true;
        }
        assert(h@.subrange(i as int, i + pat@.len()) != pat@) by {
            let m = choose|m: int| 0 <= m < pat@.len() && h@[i + m] != pat@[m];
            assert(h@.subrange(i as int, i + pat@.len())[m] == h@[i + m]);
        }
        i += 1;
    }
    false
}

/// The header line of a chunked body, as it reads in lowercase.
pub open spec fn chunked_marker() -> Seq<u8> {
    encode_utf8("transfer-encoding: chunked"@)
}

/// The body of a captured HTTP response text (its UTF-8 bytes): without a
/// "\r\n\r\n" the whole text, trimmed; otherwise what follows it,
/// dechunked where the headers (in lowercase) announce a chunked transfer
/// encoding, trimmed where they do not.
pub open spec fn spec_response_body(t: Seq<u8>) -> Option<Seq<char>> {
    match spec_find_marker_from(t, 0) {
        None => Some(spec_trim(decode_utf8(t))),
        Some(pos) => {
            let headers = decode_utf8(t.subrange(0, pos));
            let raw = t.subrange(pos + 4, t.len() as int);
            if contains_bytes(encode_utf8(spec_lowercase(headers)), chunked_marker()) {
                spec_dechunk(raw, 0)
            } else {
                Some(spec_trim(decode_utf8(raw)))
            }
        },
    }
}

/// Reads the body of a captured HTTP response text; `None` where a chunk
/// of a chunked body does not fall on character boundaries or its size
/// leaves the machine word.
pub fn try_response_body(text: &str) -> (body: Option<String>)
    ensures
        match spec_response_body(text.spec_bytes()) {
            None => body is None,
            Some(t) => body is Some && body.unwrap()@ == t,
        },
        spec_find_marker_from(text.spec_bytes(), 0) matches Some(pos) ==> ({
            let headers = decode_utf8(text.spec_bytes().subrange(0, pos));
            (forall|i: int| 0 <= i < headers.len() ==> headers[i] <= '\x7f') ==> spec_lowercase(
                headers,
            ) == ascii_lowercase(headers)
        }),
{
    let ghost b = text.spec_bytes();
    let bytes = text.as_bytes();
    match crate::http::find_marker(bytes, 0) {
        None => Some(String::from_str(str_trim(text))),
        Some(pos) => {
            proof {
                lemma_find_marker(b, 0);
                assert(marker_at(b, pos as int));
                assert(b.subrange(pos as int, pos + 4)[0] == b[pos as int]);
                assert(b.subrange(pos as int, pos + 4)[3] == b[pos + 3]);
                assert(!is_continuation_byte(b[pos as int]));
                assert(!is_continuation_byte(b[pos + 3]));
                assert(is_char_boundary(b, pos + 3));
                lemma_boundary_after_ascii(b, pos + 3);
                assert(pos + 4 <= bytes@.len());
            }
            let n = bytes.len();
            let headers = substr(text, 0, pos);
            let raw_body = substr(text, pos + 4, n);
            assert(headers@ == decode_utf8(b.subrange(0, pos as int)));
            let lower = to_lowercase(headers);
            let marker = "transfer-encoding: chunked".as_bytes();
            if find_pattern(lower.as_str().as_bytes(), marker) {
                try_dechunk(raw_body)
            } else {
                assert(raw_body@ == decode_utf8(b.subrange(pos + 4, b.len() as int)));
                Some(String::from_str(str_trim(raw_body)))
            }
        },
    }
}

/// Reads the body of a captured HTTP response (bytes, read as UTF-8 with
/// invalid sequences replaced); `None` where the body cannot be read (see
/// [`try_response_body`]).
pub fn http_body_text(response: &[u8]) -> (body: Option<String>)
    ensures
        match spec_response_body(encode_utf8(spec_utf8_lossy(response@))) {
            None => body is None,
            Some(t) => body is Some && body.unwrap()@ == t,
        },
{
    let text = utf8_lossy(response);
    try_response_body(text.as_str())
}

/// The traffic secrets logged during a handshake, in the order logged:
/// label, client random, secret.
pub struct CaptureKeyLog {
    captured: Vec<(String, Vec<u8>, Vec<u8>)>,
}

/// One logged secret, as plain values.
pub open spec fn entry_view(e: (String, Vec<u8>, Vec<u8>)) -> (Seq<char>, Seq<u8>, Seq<u8>) {
    (e.0@, e.1@, e.2@)
}

impl View for CaptureKeyLog {
    type V = Seq<(Seq<char>, Seq<u8>, Seq<u8>)>;

    closed spec fn view(&self) -> Seq<(Seq<char>, Seq<u8>, Seq<u8>)> {
        self.captured@.map_values(|e: (String, Vec<u8>, Vec<u8>)| entry_view(e))
    }
}

/// The secret of the first entry logged under `label`.
pub open spec fn spec_first_secret(log: Seq<(Seq<char>, Seq<u8>, Seq<u8>)>, label: Seq<char>) -> Option<
    Seq<u8>,
>
    decreases log.len(),
{
    if log.len() == 0 {
        None
    } else if log[0].0 == label {
        Some(log[0].2)
    } else {
        spec_first_secret(log.drop_first(), label)
    }
}

impl CaptureKeyLog {
    /// An empty log.
    pub fn new() -> (k: Self)
        ensures
            k@ == Seq::<(Seq<char>, Seq<u8>, Seq<u8>)>::empty(),
    {
        let k = Self { captured: Vec::new() };
        assert(k@ =~= Seq::<(Seq<char>, Seq<u8>, Seq<u8>)>::empty());
        k
    }

    /// Logs a secret.
    pub fn log(&mut self, label: &str, client_random: &[u8], secret: &[u8])
        ensures
            final(self)@ == old(self)@.push((label@, client_random@, secret@)),
    {
        let ghost before = self.captured@;
        self.captured.push(
            (
                String::from_str(label),
                vstd::slice::slice_to_vec(client_random),
                vstd::slice::slice_to_vec(secret),
            ),
        );
        assert(self@ =~= before.map_values(|e: (String, Vec<u8>, Vec<u8>)| entry_view(e)).push(
            (label@, client_random@, secret@),
        ));
    }

    /// The secret first logged under `label`.
    pub fn find_secret(&self, label: &str) -> (r: Option<Vec<u8>>)
        ensures
            match spec_first_secret(self@, label@) {
                None => r is None,
                Some(s) => r is Some && r.unwrap()@ == s,
            },
    {
        let ghost all = self@;
        assert(all.subrange(0, all.len() as int) =~= all);
        let mut i: usize = 0;
        while i < self.captured.len()
            invariant
                all == self@,
                all.len() == self.captured@.len(),
                i <= all.len(),
                spec_first_secret(all, label@) == spec_first_secret(all.subrange(i as int, all.len() as int), label@),
            decreases all.len() - i,
        {
            let ghost rest = all.subrange(i as int, all.len() as int);
            assert(rest[0] == entry_view(self.captured@[i as int]));
            assert(rest.drop_first() =~= all.subrange(i + 1, all.len() as int));
            if crate::store::str_eq(self.captured[i].0.as_str(), label) {
                return Some(self.captured[i].2.clone());
            }
            i += 1;
        }
        None
    }
}

/// The HTTP GET request that the prover sends for `path` on `host`.
pub open spec fn spec_http_request(path: Seq<char>, host: Seq<char>) -> Seq<char> {
    "GET "@ + path + " HTTP/1.1\r\nHost: "@ + host
        + "\r\nUser-Agent: zkTLS-Prover/1.0\r\nAccept: application/vnd.github.v3+json\r\nConnection: close\r\n\r\n"@
}

/// Formats the HTTP GET request for `path` on `host`.
pub fn http_request(path: &str, host: &str) -> (req: String)
    ensures
        req@ == spec_http_request(path@, host@),
{
    let mut req = String::from_str("GET ");
    req.append(path);
    req.append(" HTTP/1.1\r\nHost: ");
    req.append(host);
    req.append(
        "\r\nUser-Agent: zkTLS-Prover/1.0\r\nAccept: application/vnd.github.v3+json\r\nConnection: close\r\n\r\n",
    );
    req
}

/// Logging a secret changes no lookup that already succeeds, and a lookup
/// that failed finds the new secret exactly where it was logged under the
/// label looked for.
pub proof fn lemma_first_secret_after_log(
    log: Seq<(Seq<char>, Seq<u8>, Seq<u8>)>,
    entry: (Seq<char>, Seq<u8>, Seq<u8>),
    label: Seq<char>,
)
    ensures
        spec_first_secret(log.push(entry), label) == (match spec_first_secret(log, label) {
            Some(x) => Some(x),
            None => if entry.0 == label {
                Some(entry.2)
            } else {
                None
            },
        }),
    decreases log.len(),
{
    if log.len() == 0 {
        assert(log.push(entry).drop_first() =~= Seq::<(Seq<char>, Seq<u8>, Seq<u8>)>::empty());
    } else {
        assert(log.push(entry)[0] == log[0]);
        assert(log.push(entry).drop_first() =~= log.drop_first().push(entry));
        lemma_first_secret_after_log(log.drop_first(), entry, label);
    }
}


/// The parts of a URL that a capture connects to: its host (where it has
/// one), its port or the default port of its scheme (where that is known),
/// and its path; `None` where the text is no absolute URL.
pub uninterp spec fn spec_url_target(url: Seq<char>) -> Option<(Option<Seq<char>>, Option<u16>, Seq<char>)>;

/// `url::Url::parse`, then `host_str`, `port_or_known_default` and `path`:
/// the contract names the three parts of the parsed URL.
#[verifier::external_body]
fn url_target(url: &str) -> (r: Option<(Option<String>, Option<u16>, String)>)
    ensures
        match spec_url_target(url@) {
            None => r is None,
            Some((host, port, path)) => r matches Some((h, p, t)) && opt_view(h) == host && p == port
                && t@ == path,
        },
{
    let u = match url::Url::parse(url) {
        Ok(u) => u,
        Err(_) => return None,
    };
    let host = match u.host_str() {
        Some(h) => Some(h.to_string()),
        None => None,
    };
    Some((host, u.port_or_known_default(), u.path().to_string()))
}

/// Why a URL cannot be captured.
#[derive(PartialEq, Eq, Structural, Debug, Clone, Copy)]
pub enum CaptureError {
    /// The text is no absolute URL.
    InvalidUrl,
    /// The URL has no host.
    MissingHost,
    /// The URL has no port and its scheme has no default one.
    UnknownPort,
}

impl CaptureError {
    /// The message with which a capture stops on this error.
    pub fn message(&self) -> (m: &'static str)
        ensures
            m@ == (match *self {
                CaptureError::InvalidUrl => "invalid URL"@,
                CaptureError::MissingHost => "URL must have a host"@,
                CaptureError::UnknownPort => "Unknown port"@,
            }),
    {
        match self {
            CaptureError::InvalidUrl => "invalid URL",
            CaptureError::MissingHost => "URL must have a host",
            CaptureError::UnknownPort => "Unknown port",
        }
    }
}

/// The host, port and path that a capture of `url` connects to and asks
/// for: an error for a text that is no URL, a URL without host, or one
/// without a port whose scheme has no default port.
pub fn capture_target(url: &str) -> (r: Result<(String, u16, String), CaptureError>)
    ensures
        match spec_url_target(url@) {
            None => r == Err::<(String, u16, String), CaptureError>(CaptureError::InvalidUrl),
            Some((None, _, _)) => r == Err::<(String, u16, String), CaptureError>(
                CaptureError::MissingHost,
            ),
            Some((Some(_), None, _)) => r == Err::<(String, u16, String), CaptureError>(
                CaptureError::UnknownPort,
            ),
            Some((Some(host), Some(port), path)) => r matches Ok((h, p, t)) && h@ == host && p
                == port && t@ == path,
        },
{
    let (host, port, path) = match url_target(url) {
        None => return Err(CaptureError::InvalidUrl),
        Some(parts) => parts,
    };
    let host = match host {
        None => return Err(CaptureError::MissingHost),
        Some(h) => h,
    };
    let port = match port {
        None => return Err(CaptureError::UnknownPort),
        Some(p) => p,
    };
    Ok((host, port, path))
}

} // verus!
