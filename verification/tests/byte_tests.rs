use common::byte::Ascii;

#[test]
fn u8_classification() {
    assert!(b'a'.is_alpha());
    assert!(b'Z'.is_alpha());
    assert!(!b'0'.is_alpha());
    assert!(b'9'.is_digit());
    assert!(!b'a'.is_digit());
    assert!(b'a'.is_hex_digit());
    assert!(b'F'.is_hex_digit());
    assert!(b'5'.is_hex_digit());
    assert!(!b'g'.is_hex_digit());
}
