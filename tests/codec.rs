use serial_tester::codec::{
    pop_all_escaped, pop_escaped, pop_escaped_back, push_all_escaped, push_escaped, DELIM, ESCAPE,
};

#[test]
fn stuffing_escapes_both_sentinels() {
    let mut buf: Vec<u8> = Vec::new();
    push_escaped(&mut buf, DELIM);
    push_escaped(&mut buf, ESCAPE);
    push_escaped(&mut buf, 0x41);
    assert_eq!(buf, vec![0x1b, 0x34, 0x1b, 0x1b, 0x41]);
}

#[test]
fn round_trip_every_byte_value() {
    let data: Vec<u8> = (0..=255u8).collect();
    let mut stuffed: Vec<u8> = Vec::new();
    push_all_escaped(&mut stuffed, &data);
    assert_eq!(stuffed.len(), 258);
    assert!(!stuffed.contains(&DELIM));
    assert_eq!(pop_all_escaped(&stuffed), data);
}

#[test]
fn round_trip_sentinels_only() {
    let data = vec![DELIM, DELIM, ESCAPE, ESCAPE, DELIM];
    let mut stuffed: Vec<u8> = Vec::new();
    push_all_escaped(&mut stuffed, &data);
    assert!(!stuffed.contains(&DELIM));
    assert_eq!(pop_all_escaped(&stuffed), data);
}

#[test]
fn round_trip_empty() {
    let mut stuffed: Vec<u8> = Vec::new();
    push_all_escaped(&mut stuffed, &[]);
    assert!(stuffed.is_empty());
    assert!(pop_all_escaped(&stuffed).is_empty());
}

#[test]
fn pop_escaped_reports_consumed_bytes() {
    let mut offset: usize = 10;
    assert_eq!(pop_escaped(&[0x1b, 0x34, 0x55], &mut offset), Some(0x04));
    assert_eq!(offset, 12);
    assert_eq!(pop_escaped(&[0x1b, 0x1b], &mut offset), Some(0x1b));
    assert_eq!(offset, 14);
    assert_eq!(pop_escaped(&[0x55, 0x1b], &mut offset), Some(0x55));
    assert_eq!(offset, 15);
}

#[test]
fn pop_escaped_incomplete_escape() {
    let mut offset: usize = 3;
    assert_eq!(pop_escaped(&[0x1b], &mut offset), None);
    assert_eq!(pop_escaped(&[], &mut offset), None);
    assert_eq!(offset, 3);
}

#[test]
fn pop_all_escaped_stops_at_lone_escape() {
    assert_eq!(pop_all_escaped(&[0x10, 0x1b, 0x34, 0x1b]), vec![0x10, 0x04]);
}

#[test]
fn pop_escaped_back_from_end() {
    let mut buf = vec![0x10, 0x20];
    assert_eq!(pop_escaped_back(&mut buf), Some(0x20));
    assert_eq!(buf, vec![0x10]);
    let mut buf = vec![0x10, 0x34, 0x1b];
    assert_eq!(pop_escaped_back(&mut buf), Some(0x04));
    assert_eq!(buf, vec![0x10]);
    let mut buf = vec![0x1b];
    assert_eq!(pop_escaped_back(&mut buf), None);
    assert!(buf.is_empty());
    let mut buf: Vec<u8> = Vec::new();
    assert_eq!(pop_escaped_back(&mut buf), None);
}
