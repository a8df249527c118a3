use fieldcodec::{
    check_len, check_len_str, check_size, invalid_data, invalid_input, is_set, major, minor,
    safe_get_str, safe_set_str, CodecError,
};

#[test]
fn is_set_subset_true() {
    assert!(is_set(0b1011u64, 0b0011u64));
    assert!(is_set(0b1011u64, 0b1000u64));
    assert!(is_set(0xffff_ffff_ffff_ffffu64, 0x8000_0000_0000_0001u64));
    assert!(is_set(42u64, 0u64));
    assert!(is_set(0b11u8, 0b10u8));
    assert!(is_set(-1i32, 7i32));
}

#[test]
fn is_set_missing_bit_false() {
    assert!(!is_set(0b1011u64, 0b0100u64));
    assert!(!is_set(0b1011u64, 0b0111u64));
    assert!(!is_set(0u64, 1u64));
    assert!(!is_set(0u8, 0x80u8));
}

#[test]
fn error_kinds_distinguishable() {
    assert_eq!(invalid_input(), CodecError::InvalidInput);
    assert_eq!(invalid_data(), CodecError::InvalidData);
    assert_ne!(invalid_input(), invalid_data());
}

#[test]
fn check_size_strict_boundary() {
    let buf = [0u8; 4];
    assert_eq!(check_size(3, &buf), Ok(()));
    assert_eq!(check_size(4, &buf), Err(CodecError::InvalidData));
    assert_eq!(check_size(5, &buf), Err(CodecError::InvalidData));
}

#[test]
fn check_len_strict_boundary() {
    let dst = [0u8; 4];
    assert_eq!(check_len(&[1u8, 2, 3], &dst), Ok(()));
    assert_eq!(check_len(&[1u8, 2, 3, 4], &dst), Err(CodecError::InvalidInput));
    assert_eq!(check_len(&[0u16, 0, 0, 0, 0], &dst), Err(CodecError::InvalidInput));
}

#[test]
fn check_len_str_reserves_terminator() {
    let four = [0u8; 4];
    let five = [0u8; 5];
    assert_eq!(check_len_str("abc", &four), Err(CodecError::InvalidInput));
    assert_eq!(check_len_str("abc", &five), Ok(()));
}

#[test]
fn check_len_str_counts_bytes_not_chars() {
    // a two-byte character needs two bytes plus the terminator, strictly below the capacity
    let three = [0u8; 3];
    let four = [0u8; 4];
    assert_eq!(check_len_str("é", &three), Err(CodecError::InvalidInput));
    assert_eq!(check_len_str("é", &four), Ok(()));
}

#[test]
fn guards_are_pure() {
    let buf = [0u8; 4];
    assert_eq!(check_size(4, &buf), check_size(4, &buf));
    assert_eq!(check_len(&[1u8, 2], &buf), check_len(&[1u8, 2], &buf));
    assert_eq!(check_len_str("ab", &buf), check_len_str("ab", &buf));
}

#[test]
fn set_str_exact_capacity_fails() {
    // capacity must exceed content plus terminator, not merely equal it
    let mut exact = [7u8; 4];
    assert_eq!(safe_set_str(&mut exact, "abc"), Err(CodecError::InvalidInput));
    let mut roomy = [7u8; 5];
    assert_eq!(safe_set_str(&mut roomy, "abc"), Ok(()));
}

#[test]
fn set_str_writes_content_and_terminator() {
    let mut buf = [0xffu8; 5];
    assert_eq!(safe_set_str(&mut buf, "abc"), Ok(()));
    assert_eq!(buf, [0x61, 0x62, 0x63, 0x00, 0xff]);
}

#[test]
fn set_str_failure_leaves_buffer_untouched() {
    let mut buf = [7u8; 4];
    assert_eq!(safe_set_str(&mut buf, "abcdef"), Err(CodecError::InvalidInput));
    assert_eq!(buf, [7u8; 4]);
}

#[test]
fn set_str_empty_text_boundary() {
    let mut one = [9u8; 1];
    assert_eq!(safe_set_str(&mut one, ""), Err(CodecError::InvalidInput));
    let mut two = [9u8; 2];
    assert_eq!(safe_set_str(&mut two, ""), Ok(()));
    assert_eq!(two, [0x00, 9]);
}

#[test]
fn round_trip_ascii() {
    let mut buf = [0u8; 16];
    assert_eq!(safe_set_str(&mut buf, "hello"), Ok(()));
    assert_eq!(safe_get_str(&buf), Ok("hello"));
}

#[test]
fn round_trip_multibyte() {
    let mut buf = [0u8; 16];
    assert_eq!(safe_set_str(&mut buf, "héllo"), Ok(()));
    assert_eq!(safe_get_str(&buf), Ok("héllo"));
}

#[test]
fn get_str_all_zeros_is_empty() {
    assert_eq!(safe_get_str(&[0u8; 8]), Ok(""));
}

#[test]
fn get_str_empty_slice_is_empty() {
    assert_eq!(safe_get_str(&[]), Ok(""));
}

#[test]
fn get_str_invalid_utf8_fails() {
    assert_eq!(safe_get_str(&[0xff, 0xfe]), Err(CodecError::InvalidData));
    assert_eq!(safe_get_str(&[0x61, 0xff, 0x00, 0x00]), Err(CodecError::InvalidData));
}

#[test]
fn get_str_strips_all_trailing_zeros() {
    assert_eq!(safe_get_str(b"ab\0\0\0"), Ok("ab"));
    assert_eq!(safe_get_str(b"ab"), Ok("ab"));
}

#[test]
fn get_str_keeps_embedded_zeros() {
    assert_eq!(safe_get_str(b"a\0b\0\0"), Ok("a\0b"));
}

#[test]
fn dev_components_of_known_value() {
    let dev: u64 = 0x0000000100002003;
    assert_eq!(major(dev), 0x20);
    assert_eq!(minor(dev), 0x100003);
}

#[test]
fn dev_components_of_small_value() {
    let dev: u64 = 0x0801;
    assert_eq!(major(dev), 8);
    assert_eq!(minor(dev), 1);
}

#[test]
fn dev_components_use_disjoint_masks() {
    assert_eq!(major(0x00000000000fff00), 0xfff);
    assert_eq!(major(0xfffff00000000000), 0xfffff000);
    assert_eq!(minor(0x00000000000000ff), 0xff);
    assert_eq!(minor(0x00000ffffff00000), 0xffffff00);
}
