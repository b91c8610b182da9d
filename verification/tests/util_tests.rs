use udp_ping::util::{seq_to_u64, u8_to_py_hex_str};

#[test]
fn seq_to_u64_reads_little_endian() {
    assert_eq!(seq_to_u64(&[0, 0, 0, 0, 0]), 0);
    assert_eq!(seq_to_u64(&[1, 0, 0, 0, 0]), 1);
    assert_eq!(seq_to_u64(&[0, 1, 0, 0, 0]), 256);
    assert_eq!(seq_to_u64(&[0x05, 0x04, 0x03, 0x02, 0x01]), 0x0102_0304_05);
    assert_eq!(seq_to_u64(&[0xff; 5]), 0xff_ffff_ffff);
}

#[test]
fn seq_to_u64_reads_only_five_bytes() {
    assert_eq!(seq_to_u64(&[7, 0, 0, 0, 0, 9, 9, 9]), 7);
    assert_eq!(seq_to_u64(&[0, 0, 0, 0, 2, 0xff]), 2 << 32);
}

#[test]
fn hex_of_nothing_is_empty() {
    assert_eq!(u8_to_py_hex_str(&[]), "");
}

#[test]
fn hex_escapes_every_byte() {
    assert_eq!(u8_to_py_hex_str(&[0]), "\\x00");
    assert_eq!(u8_to_py_hex_str(&[0x0a]), "\\x0a");
    assert_eq!(u8_to_py_hex_str(&[0xff]), "\\xff");
    assert_eq!(u8_to_py_hex_str(&[0x01, 0xab, 0x9c]), "\\x01\\xab\\x9c");
    assert_eq!(
        u8_to_py_hex_str(&[0x10, 0x32, 0x54, 0x76, 0x98, 0xba, 0xdc, 0xfe]),
        "\\x10\\x32\\x54\\x76\\x98\\xba\\xdc\\xfe"
    );
}

#[test]
fn hex_agrees_with_the_formatter_on_every_byte() {
    for byte in 0..=255u8 {
        assert_eq!(u8_to_py_hex_str(&[byte]), format!("\\x{:02x}", byte));
    }
}
