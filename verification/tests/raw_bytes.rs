use a2ldeser::raw_bytes::{parse_hex_bytes, HexBytesError};

#[test]
fn parses_accepted_spellings() {
    for text in ["0xffe6", "ffe6", "ff e6", "FF E6", "0XFFE6", "  ff\te6\n"] {
        assert_eq!(parse_hex_bytes(text), Ok(vec![0xFF, 0xE6]), "{text:?}");
    }
    assert_eq!(parse_hex_bytes("0x1027"), Ok(vec![0x10, 0x27]));
    assert_eq!(parse_hex_bytes(""), Ok(vec![]));
}

#[test]
fn odd_digit_count_is_refused() {
    assert_eq!(parse_hex_bytes("0x123"), Err(HexBytesError::OddLength { digits: "123".to_string() }));
    assert_eq!(parse_hex_bytes("1 2 3"), Err(HexBytesError::OddLength { digits: "123".to_string() }));
}

#[test]
fn invalid_pairs_are_refused() {
    assert_eq!(parse_hex_bytes("12zz"), Err(HexBytesError::InvalidByte { chunk: "zz".to_string() }));
    assert_eq!(parse_hex_bytes("0x0x"), Err(HexBytesError::InvalidByte { chunk: "0x".to_string() }));
    assert_eq!(parse_hex_bytes("-1"), Err(HexBytesError::InvalidByte { chunk: "-1".to_string() }));
    assert_eq!(parse_hex_bytes("éa1"), Err(HexBytesError::InvalidByte { chunk: "é".to_string() }));
}

#[test]
fn plus_sign_pair_reads_one_digit() {
    assert_eq!(parse_hex_bytes("+f"), Ok(vec![0x0F]));
}

#[test]
fn pairs_splitting_a_character_are_reported() {
    assert_eq!(parse_hex_bytes("aé1"), Err(HexBytesError::SplitCharacter));
    assert_eq!(parse_hex_bytes("€1"), Err(HexBytesError::SplitCharacter));
}

#[test]
fn upper_case_rendering_reads_back() {
    let bytes = vec![0x00, 0xA5, 0xFF, 0x10];
    let text: String = bytes.iter().map(|b| format!("{b:02X}")).collect();
    assert_eq!(parse_hex_bytes(&text), Ok(bytes.clone()));
    assert_eq!(parse_hex_bytes(&format!("0x{text}")), Ok(bytes));
}
