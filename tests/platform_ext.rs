use envs::platform_ext::u8_vec_to_string;

#[test]
fn decode() {
    let bytes = b"abc";
    let formatted = u8_vec_to_string(bytes);
    assert_eq!(formatted, Ok("abc".to_string()));
}

#[test]
fn unix_decode_non_utf8() {
    let bytes = vec![0x54, 0x65, 0x73, 0x74, 0xc3, 0x28];
    let formatted = u8_vec_to_string(&bytes);
    assert_eq!(formatted, Err("Test\\xc3(".to_string()));
}
