use gb_disasm::hex::{from_hex, lower_hex, to_hex};

#[test]
fn to_hex_writes_two_upper_case_digits() {
    assert_eq!(to_hex(0x00), "0x00");
    assert_eq!(to_hex(0x3e), "0x3E");
    assert_eq!(to_hex(0xcb), "0xCB");
    assert_eq!(to_hex(0xff), "0xFF");
}

#[test]
fn from_hex_reads_what_to_hex_writes() {
    for code in 0..=255u8 {
        assert_eq!(from_hex(&to_hex(code)), Some(code));
    }
}

#[test]
fn from_hex_refuses_other_keys() {
    assert_eq!(from_hex("0x3e"), None);
    assert_eq!(from_hex("0X3E"), None);
    assert_eq!(from_hex("3E"), None);
    assert_eq!(from_hex("0x3"), None);
    assert_eq!(from_hex("0x3E0"), None);
    assert_eq!(from_hex(""), None);
    assert_eq!(from_hex("0x3G"), None);
}

#[test]
fn lower_hex_has_no_leading_zero() {
    assert_eq!(lower_hex(0), "0");
    assert_eq!(lower_hex(5), "5");
    assert_eq!(lower_hex(0x0a), "a");
    assert_eq!(lower_hex(0x150), "150");
    assert_eq!(lower_hex(0xffff), "ffff");
}
