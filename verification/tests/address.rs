use stealth_gas::address::{parse_address, Address, AddressError};

#[test]
fn an_address_is_twenty_bytes_of_hexadecimal() {
    let expected = Address {
        bytes: [
            0x94, 0x32, 0x85, 0xf1, 0xa2, 0x92, 0x81, 0xe5, 0x95, 0x14, 0xff, 0x35, 0xdc, 0x16, 0xe5,
            0xa1, 0x4e, 0x12, 0x3a, 0x27,
        ],
    };
    assert_eq!(parse_address("0x943285f1a29281e59514fF35Dc16E5a14E123a27"), Ok(expected));
    assert_eq!(parse_address("943285f1a29281e59514fF35Dc16E5a14E123a27"), Ok(expected));
    assert_eq!(parse_address("0X943285F1A29281E59514FF35DC16E5A14E123A27"), Ok(expected));
}

#[test]
fn every_marker_in_an_address_is_passed_over() {
    let text = format!("0x0x{}0x{}1", "0".repeat(20), "0".repeat(19));
    let zero_one = parse_address(&text).unwrap();
    let mut bytes = [0u8; 20];
    bytes[19] = 1;
    assert_eq!(zero_one, Address { bytes });
}

#[test]
fn other_texts_are_no_addresses() {
    assert_eq!(parse_address("0x1234"), Err(AddressError::WrongLength(2)));
    assert_eq!(parse_address(""), Err(AddressError::WrongLength(0)));
    assert_eq!(parse_address("0x"), Err(AddressError::WrongLength(0)));
    assert_eq!(parse_address("0x123"), Err(AddressError::BadHex));
    assert_eq!(parse_address("0x94328gf1a29281e59514fF35Dc16E5a14E123a27"), Err(AddressError::BadHex));
    assert_eq!(parse_address("vitalik.eth"), Err(AddressError::BadHex));
    assert_eq!(
        parse_address("0x943285f1a29281e59514fF35Dc16E5a14E123a2700"),
        Err(AddressError::WrongLength(21))
    );
}
