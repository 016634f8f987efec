use serial_tester::fixtures::{generate, generate_bin};

#[test]
fn generate_pads_to_alnum_checksum() {
    assert_eq!(generate(5), b"1234000Z".to_vec());
    assert_eq!(generate(0), b"00".to_vec());
    assert_eq!(generate(1), b"00".to_vec());
}

#[test]
fn generate_long_line() {
    let line = generate(250);
    assert!(line.starts_with(b"1234567890"));
    assert!(line.last().unwrap().is_ascii_alphanumeric());
}

#[test]
fn generate_bin_frames() {
    assert_eq!(generate_bin(0, None), vec![0x00, 0x01, 0xff, 0x00, 0x04]);
    assert_eq!(generate_bin(0, Some(5)), vec![0x00, 0x01, 0xff, 1, 1, 1, 1, 1, 0x05, 0x04]);
    assert_eq!(generate_bin(0, Some(4)), vec![0x00, 0x01, 0xff, 1, 1, 1, 1, 0x1b, 0x34, 0x04]);
    assert_eq!(generate_bin(2, None), vec![0x00, 0x01, 0xff, 0x00, 0x01, 0x01, 0x04]);
}
