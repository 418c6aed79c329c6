use chippy::hexload::decode_hex;

#[test]
fn decodes_pairs_with_whitespace() {
    let text: Vec<u8> = b"A1 b2\n03\t ff".to_vec();
    assert_eq!(decode_hex(&text), Some(vec![0xA1, 0xB2, 0x03, 0xFF]));
}

#[test]
fn trailing_odd_digit_is_dropped() {
    let text: Vec<u8> = b"ABC".to_vec();
    assert_eq!(decode_hex(&text), Some(vec![0xAB]));
}

#[test]
fn trailing_odd_junk_is_never_read() {
    let text: Vec<u8> = b"ABX".to_vec();
    assert_eq!(decode_hex(&text), Some(vec![0xAB]));
}

#[test]
fn junk_in_a_pair_is_refused() {
    let text: Vec<u8> = b"G1".to_vec();
    assert_eq!(decode_hex(&text), None);
    let text2: Vec<u8> = b"A1 2z".to_vec();
    assert_eq!(decode_hex(&text2), None);
}

#[test]
fn empty_and_blank_texts_decode_to_nothing() {
    assert_eq!(decode_hex(&vec![]), Some(vec![]));
    let blank: Vec<u8> = b" \n\t\r ".to_vec();
    assert_eq!(decode_hex(&blank), Some(vec![]));
}

#[test]
fn mixed_case_digits() {
    let text: Vec<u8> = b"0f F0 9c Cd".to_vec();
    assert_eq!(decode_hex(&text), Some(vec![0x0F, 0xF0, 0x9C, 0xCD]));
}
