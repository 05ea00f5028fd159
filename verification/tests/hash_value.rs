use merkle_tree_bulletin_board::{BoardError, HashValue};

fn counting() -> HashValue {
    let mut bytes = [0u8; 32];
    for (i, b) in bytes.iter_mut().enumerate() {
        *b = (i as u8) * 8 + 1;
    }
    HashValue(bytes)
}

#[test]
fn text_is_64_lowercase_hex_digits() {
    let text = counting().to_string();
    assert_eq!(text, "0109111921293139414951596169717981899199a1a9b1b9c1c9d1d9e1e9f1f9");
    assert_eq!(text.len(), 64);
    assert!(text.chars().all(|c| c.is_ascii_digit() || ('a'..='f').contains(&c)));
}

#[test]
fn text_of_extreme_bytes() {
    assert_eq!(HashValue([0x00; 32]).to_string(), "00".repeat(32));
    assert_eq!(HashValue([0xff; 32]).to_string(), "ff".repeat(32));
    assert_eq!(HashValue([0x0a; 32]).to_string(), "0a".repeat(32));
    assert_eq!(HashValue([0xa0; 32]).to_string(), "a0".repeat(32));
}

#[test]
fn text_round_trips() {
    let hash = counting();
    assert_eq!(HashValue::from_hex(&hash.to_string()), Ok(hash));
    let zero = HashValue([0; 32]);
    assert_eq!(HashValue::from_hex(&zero.to_string()), Ok(zero));
}

#[test]
fn from_hex_reads_each_pair_as_a_byte() {
    let text = "000102030405060708090a0b0c0d0e0f101112131415161718191a1b1c1d1e1f";
    let mut expected = [0u8; 32];
    for (i, b) in expected.iter_mut().enumerate() {
        *b = i as u8;
    }
    assert_eq!(HashValue::from_hex(text), Ok(HashValue(expected)));
}

#[test]
fn from_hex_reads_upper_case_digits() {
    let lower = "ab".repeat(32);
    let upper = "AB".repeat(32);
    let mixed = "aB".repeat(32);
    assert_eq!(HashValue::from_hex(&upper), Ok(HashValue([0xab; 32])));
    assert_eq!(HashValue::from_hex(&mixed), HashValue::from_hex(&lower));
}

#[test]
fn from_hex_refuses_wrong_length() {
    assert_eq!(HashValue::from_hex(""), Err(BoardError::InvalidEncoding));
    assert_eq!(HashValue::from_hex(&"0".repeat(63)), Err(BoardError::InvalidEncoding));
    assert_eq!(HashValue::from_hex(&"0".repeat(65)), Err(BoardError::InvalidEncoding));
    assert_eq!(HashValue::from_hex(&"0".repeat(62)), Err(BoardError::InvalidEncoding));
    assert_eq!(HashValue::from_hex(&"0".repeat(66)), Err(BoardError::InvalidEncoding));
    assert_eq!(HashValue::from_hex(&"0".repeat(128)), Err(BoardError::InvalidEncoding));
}

#[test]
fn from_hex_refuses_other_characters() {
    let mut text = "0".repeat(63);
    text.push('g');
    assert_eq!(HashValue::from_hex(&text), Err(BoardError::InvalidEncoding));
    let mut spaced = "0".repeat(63);
    spaced.insert(10, ' ');
    assert_eq!(HashValue::from_hex(&spaced), Err(BoardError::InvalidEncoding));
    let prefixed = format!("0x{}", "0".repeat(62));
    assert_eq!(HashValue::from_hex(&prefixed), Err(BoardError::InvalidEncoding));
}

#[test]
fn from_hex_refuses_text_that_is_not_ascii() {
    // 64 characters, 128 bytes
    assert_eq!(HashValue::from_hex(&"é".repeat(64)), Err(BoardError::InvalidEncoding));
    // 32 characters, 64 bytes
    assert_eq!(HashValue::from_hex(&"é".repeat(32)), Err(BoardError::InvalidEncoding));
    // 64 characters of which one is a full-width digit
    let mut text = "1".repeat(63);
    text.push('１');
    assert_eq!(HashValue::from_hex(&text), Err(BoardError::InvalidEncoding));
}

#[test]
fn hashes_are_equal_by_their_bytes() {
    let a = HashValue([7; 32]);
    let b = HashValue([7; 32]);
    let mut other = [7u8; 32];
    other[31] = 8;
    assert!(a == b);
    assert!(a != HashValue(other));
    other[31] = 7;
    other[0] = 6;
    assert!(a != HashValue(other));
}

#[test]
fn hashes_work_as_keys() {
    let mut seen = std::collections::HashSet::new();
    assert!(seen.insert(HashValue([1; 32])));
    assert!(!seen.insert(HashValue([1; 32])));
    assert!(seen.insert(HashValue([2; 32])));
    assert_eq!(seen.len(), 2);
}
