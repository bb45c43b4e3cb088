use agent_marketplace::cli::{
    hex_string, parse_address, registration_status, strip_hex_prefix, AddressError,
};

#[test]
fn parses_a_prefixed_address() {
    let a = parse_address("0x00112233445566778899aabbccddeeff00112233").unwrap();
    assert_eq!(a[0], 0x00);
    assert_eq!(a[1], 0x11);
    assert_eq!(a[19], 0x33);
}

#[test]
fn parses_an_address_in_either_case_without_prefix() {
    let a = parse_address("00112233445566778899AABBCCDDEEFF00112233").unwrap();
    assert_eq!(a[10], 0xaa);
}

#[test]
fn refuses_what_is_no_hex() {
    assert_eq!(parse_address("0xzz"), Err(AddressError::InvalidHex));
    assert_eq!(parse_address("0x123"), Err(AddressError::InvalidHex));
    assert_eq!(AddressError::InvalidHex.message(), "Invalid hex address");
}

#[test]
fn refuses_an_address_of_another_length() {
    assert_eq!(parse_address("0x0011"), Err(AddressError::WrongLength));
    assert_eq!(parse_address(""), Err(AddressError::WrongLength));
    assert_eq!(
        AddressError::WrongLength.message(),
        "Address must be 20 bytes (40 hex chars)"
    );
}

#[test]
fn hex_string_is_prefixed_lowercase() {
    assert_eq!(hex_string(&[0xde, 0xad, 0x01]), "0xdead01");
    assert_eq!(hex_string(&[]), "0x");
}

#[test]
fn an_address_written_out_reads_back() {
    let a: [u8; 20] = [
        0xff, 0, 1, 2, 3, 4, 5, 6, 7, 8, 9, 10, 0xab, 0xcd, 0xef, 0x10, 0x20, 0x30, 0x40, 0x7f,
    ];
    assert_eq!(parse_address(&hex_string(&a)), Ok(a));
}

#[test]
fn strips_only_a_leading_prefix() {
    assert_eq!(strip_hex_prefix("0xab"), "ab");
    assert_eq!(strip_hex_prefix("ab0x"), "ab0x");
    assert_eq!(strip_hex_prefix("0X12"), "0X12");
    assert_eq!(strip_hex_prefix("0"), "0");
}

#[test]
fn registration_status_words() {
    assert_eq!(registration_status(true), "Registered (active)");
    assert_eq!(registration_status(false), "Registered (inactive)");
}
