//! The text forms that the marketplace's command line reads and prints:
//! 20-byte addresses and 0x-prefixed hex.

use vstd::prelude::*;
use vstd::string::*;
use vstd::utf8::*;

use crate::encoding::{hex_decode, hex_encode, hex_value, spec_hex_decode, spec_hex_lower, hex_digit};
use crate::http::lemma_boundary_after_ascii;

verus! {

broadcast use {
    vstd::utf8::is_char_boundary_start_end_of_seq,
    vstd::utf8::is_ascii_chars_encode_utf8,
    vstd::utf8::encode_utf8_valid_utf8,
};

/// Why an address text is refused.
#[derive(PartialEq, Eq, Structural, Debug, Clone, Copy)]
pub enum AddressError {
    /// The text (after an optional "0x") is no even-length hex.
    InvalidHex,
    /// The hex does not encode 20 bytes.
    WrongLength,
}

impl AddressError {
    /// The message with which the command line reports the error.
    pub fn message(&self) -> (m: &'static str)
        ensures
            m@ == (match *self {
                AddressError::InvalidHex => "Invalid hex address"@,
                AddressError::WrongLength => "Address must be 20 bytes (40 hex chars)"@,
            }),
    {
        match self {
            AddressError::InvalidHex => "Invalid hex address",
            AddressError::WrongLength => "Address must be 20 bytes (40 hex chars)",
        }
    }
}

/// The bytes of a text without a leading "0x".
pub open spec fn spec_strip_0x(b: Seq<u8>) -> Seq<u8> {
    if b.len() >= 2 && b[0] == 0x30 && b[1] == 0x78 {
        b.subrange(2, b.len() as int)
    } else {
        b
    }
}

/// The address that a text (its UTF-8 bytes) denotes: 20 bytes written in
/// hex, with or without a leading "0x".
pub open spec fn spec_parse_address(text: Seq<u8>) -> Result<Seq<u8>, AddressError> {
    match spec_hex_decode(spec_strip_0x(text)) {
        None => Err(AddressError::InvalidHex),
        Some(b) => if b.len() != 20 {
            Err(AddressError::WrongLength)
        } else {
            Ok(b)
        },
    }
}

/// The text "0x" followed by the lowercase hex of `b`.
pub open spec fn spec_hex_string(b: Seq<u8>) -> Seq<char> {
    seq!['0', 'x'] + spec_hex_lower(b)
}

/// A text without a leading "0x".
pub fn strip_hex_prefix(s: &str) -> (r: &str)
    ensures
        r.spec_bytes() == spec_strip_0x(s.spec_bytes()),
{
    let b = s.as_bytes();
    if b.len() >= 2 && b[0] == 0x30 && b[1] == 0x78 {
        proof {
            let bs = b@;
            assert(valid_utf8(bs));
            assert(is_char_boundary(bs, 0));
            lemma_boundary_after_ascii(bs, 0);
            lemma_boundary_after_ascii(bs, 1);
        }
        let (_, rest) = s.split_at(2);
        rest
    } else {
        s
    }
}

/// Parses a hex address, with or without a leading "0x", into its 20 bytes.
pub fn parse_address(addr: &str) -> (r: Result<[u8; 20], AddressError>)
    ensures
        match spec_parse_address(addr.spec_bytes()) {
            Err(e) => r == Err::<[u8; 20], AddressError>(e),
            Ok(b) => r matches Ok(a) && a@ == b,
        },
{
    let s = strip_hex_prefix(addr);
    let bytes = match hex_decode(s) {
        Some(b) => b,
        None => return Err(AddressError::InvalidHex),
    };
    if bytes.len() != 20 {
        return Err(AddressError::WrongLength);
    }
    let mut out = [0u8; 20];
    let mut i: usize = 0;
    while i < 20
        invariant
            bytes@.len() == 20,
            i <= 20,
            out@.len() == 20,
            forall|j: int| 0 <= j < i ==> out@[j] == bytes@[j],
        decreases 20 - i,
    {
        out[i] = bytes[i];
        i += 1;
    }
    assert(out@ =~= bytes@);
    Ok(out)
}

/// Formats bytes as "0x" followed by their lowercase hex.
pub fn hex_string(bytes: &[u8]) -> (s: String)
    ensures
        s@ == spec_hex_string(bytes@),
{
    let prefix = String::from_str("0x");
    proof {
        reveal_strlit("0x");
        assert("0x"@ =~= seq!['0', 'x']);
    }
    let hex = hex_encode(bytes);
    prefix.concat(hex.as_str())
}

/// The status line for a registered agent.
pub fn registration_status(active: bool) -> (s: &'static str)
    ensures
        active ==> s@ == "Registered (active)"@,
        !active ==> s@ == "Registered (inactive)"@,
{
    if active {
        "Registered (active)"
    } else {
        "Registered (inactive)"
    }
}

/// A hex digit is an ASCII character, and reading its byte back as hex
/// gives the nibble.
proof fn lemma_hex_digit(n: int)
    requires
        0 <= n < 16,
    ensures
        (hex_digit(n) as int) < 128,
        hex_value(hex_digit(n) as u8) == Some(n as u8),
{
}

/// The hex text of a byte string is ASCII.
proof fn lemma_hex_string_ascii(a: Seq<u8>)
    ensures
        is_ascii_chars(spec_hex_string(a)),
{
    let c = spec_hex_string(a);
    assert forall|i: int| 0 <= i < c.len() implies '\0' <= #[trigger] c[i] <= '\u{7f}' by {
        if i >= 2 {
            let k = i - 2;
            let b = a[k / 2] as int;
            assert(0 <= b / 16 < 16) by (nonlinear_arith)
                requires
                    0 <= b < 256,
            ;
            lemma_hex_digit(b / 16);
            lemma_hex_digit(b % 16);
        }
    }
}

/// Parsing the hex text of an address gives the address back: for every
/// 20-byte string `a`, reading "0x" followed by the lowercase hex of `a`
/// as an address yields `a`.
pub proof fn lemma_address_roundtrip(a: Seq<u8>)
    requires
        a.len() == 20,
    ensures
        spec_parse_address(encode_utf8(spec_hex_string(a))) == Ok::<Seq<u8>, AddressError>(a),
{
    let c = spec_hex_string(a);
    lemma_hex_string_ascii(a);
    let bytes = encode_utf8(c);
    assert(bytes.len() == 42);
    assert(bytes[0] == c[0] as u8);
    assert(bytes[1] == c[1] as u8);
    let t = spec_strip_0x(bytes);
    assert(t == bytes.subrange(2, 42));
    assert forall|i: int| 0 <= i < 40 implies #[trigger] t[i] == spec_hex_lower(a)[i] as u8 by {
        assert(t[i] == bytes[i + 2]);
        assert(bytes[i + 2] == c[i + 2] as u8);
    }
    assert forall|i: int| 0 <= i < 40 implies hex_value(#[trigger] t[i]) is Some && hex_value(t[i]).unwrap()
        == (if i % 2 == 0 {
        a[i / 2] as int / 16
    } else {
        a[i / 2] as int % 16
    }) by {
        let b = a[i / 2] as int;
        assert(0 <= b / 16 < 16) by (nonlinear_arith)
            requires
                0 <= b < 256,
        ;
        lemma_hex_digit(b / 16);
        lemma_hex_digit(b % 16);
    }
    assert(!(exists|i: int| 0 <= i < t.len() && hex_value(t[i]) is None));
    let d = spec_hex_decode(t).unwrap();
    assert forall|j: int| 0 <= j < 20 implies #[trigger] d[j] == a[j] by {
        let b = a[j] as int;
        assert(hex_value(t[2 * j]).unwrap() == b / 16);
        assert(hex_value(t[2 * j + 1]).unwrap() == b % 16);
        assert((b / 16) * 16 + b % 16 == b) by (nonlinear_arith)
            requires
                0 <= b < 256,
        ;
    }
    assert(d =~= a);
}

/// Arguments of the command that deploys an agent to EigenCloud.
pub struct DeployArgs {
    /// Name for the agent.
    pub name: String,
    /// Docker image to deploy.
    pub docker_image: String,
    /// EigenCloud API key.
    pub eigencloud_api_key: String,
    /// EigenCloud API endpoint.
    pub endpoint: String,
}

/// Arguments of the command that registers the agent in the AgentRegistry.
pub struct RegisterArgs {
    /// Ethereum RPC URL.
    pub rpc_url: String,
    /// Agent Registry contract address.
    pub contract_address: String,
    /// Private key for signing transactions.
    pub private_key: String,
    /// TEE public key (hex-encoded).
    pub tee_public_key: String,
    /// TEE attestation quote (hex-encoded).
    pub attestation_quote: String,
    /// Optional metadata URI.
    pub metadata_uri: String,
}

/// Arguments of the command that reports an agent's registration.
pub struct StatusArgs {
    /// Ethereum RPC URL.
    pub rpc_url: String,
    /// Agent Registry contract address.
    pub contract_address: String,
    /// Agent address to check.
    pub agent_address: Option<String>,
    /// Private key, whose address is checked where no address is given.
    pub private_key: Option<String>,
}

/// Arguments of the command that submits a zkTLS proof for a task.
pub struct SubmitProofArgs {
    /// Ethereum RPC URL.
    pub rpc_url: String,
    /// Task contract address.
    pub contract_address: String,
    /// Private key for signing transactions.
    pub private_key: String,
    /// Task ID to submit the proof for.
    pub task_id: u64,
    /// Path to the proof file (binary).
    pub proof_file: String,
    /// Path to the public inputs file (raw ABI-encoded bytes).
    pub public_inputs_file: String,
}

/// Arguments of the command that creates a zkTLS schema.
pub struct CreateSchemaArgs {
    /// Ethereum RPC URL.
    pub rpc_url: String,
    /// Schema Registry contract address.
    pub contract_address: String,
    /// Private key for signing transactions.
    pub private_key: String,
    /// Schema name.
    pub name: String,
    /// Human-readable description.
    pub description: String,
    /// TLS server hostname.
    pub server_host: String,
    /// Path to the request schema JSON file.
    pub request_schema: String,
    /// Path to the response schema JSON file.
    pub response_schema: String,
}

} // verus!
