use chip8::c8core::types::{convert_hex_addr, convert_hex_byte};

#[test]
fn test_convert_hex() {
    assert_eq!(convert_hex_addr("020E"), Some(0x020E));
    assert_eq!(convert_hex_addr("ffff"), Some(0xFFFF));
    assert_eq!(convert_hex_addr("+12"), Some(0x12));
    assert_eq!(convert_hex_addr("10000"), None);
    assert_eq!(convert_hex_addr("120x"), None);
    assert_eq!(convert_hex_addr(""), None);
    assert_eq!(convert_hex_addr("-1"), None);
    assert_eq!(convert_hex_addr("0x020E"), Some(0x020E));
    assert_eq!(convert_hex_addr("0xffff"), Some(0xFFFF));
    assert_eq!(convert_hex_addr("0x"), None);
    assert_eq!(convert_hex_addr("0xZZ"), None);
    assert_eq!(convert_hex_addr("0x10000"), None);
    assert_eq!(convert_hex_addr("0x0x12"), None);
    assert_eq!(convert_hex_addr("0xé"), None);
    assert_eq!(chip8::types::convert_hex_addr("0200"), Some(0x0200));
    assert_eq!(convert_hex_byte("FF"), Some(0xFF));
    assert_eq!(convert_hex_byte("100"), None);
    assert_eq!(convert_hex_byte("g"), None);
}
