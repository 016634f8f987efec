use serial_tester::codec::pop_all_escaped;
use serial_tester::mesh::{
    EspDevice, EspTester, Level, MacAddr, TraceOutcome, MSG_TYPE_NOTIFY, MSG_TYPE_PUSH_GPIO,
    MSG_TYPE_PUSH_NETSTAT,
};

fn notify(push_id: u16) -> Vec<u8> {
    let mut data =
        hex::decode("416867254e3ff0ed47000000000c0000000c0001a0764ead1d300017").unwrap();
    data.push((push_id >> 8) as u8);
    data.push(push_id as u8);
    data
}

fn netstat_push(rssi: u8, snr: u8, next_hop: &str, ts: u16) -> Vec<u8> {
    let mut data = vec![rssi, snr, 0x00, 0x00, 0x00, 0x02, 0x01, 0x00, 0x01, 0x01, 0x01];
    data.push((ts >> 8) as u8);
    data.push(ts as u8);
    data.extend_from_slice(&hex::decode(next_hop).unwrap());
    data.extend_from_slice(&[0x06, 0x45]);
    data.extend_from_slice(&hex::decode("7cdfa1dee03c").unwrap());
    data
}

#[test]
fn test_pop_allescaped() {
    let data = hex::decode("c92300000002010001010106416867254eed8406457cdfa1dee03c").unwrap();
    let escaped_data = pop_all_escaped(&data);
    let mut esp_tester = EspTester::default();
    let outcome = esp_tester.trace_esp_data(MSG_TYPE_PUSH_NETSTAT, &escaped_data);
    assert_eq!(esp_tester.device_count(), 1);
    match outcome {
        TraceOutcome::Netstat { addr, report } => {
            assert_eq!(addr, MacAddr(0x7cdfa1dee03c));
            assert_eq!(report.skip_level, Level::Silent);
            assert_eq!(report.summary_level, Level::Info);
        }
        _ => panic!("expected a statistics push"),
    }
    let device = esp_tester.device(&MacAddr(0x7cdfa1dee03c)).unwrap();
    assert_eq!(device.last_push_id, 0x0645);
    assert_eq!(device.net_stat_ts, 0x0641);
    assert_eq!(device.next_node, Some(MacAddr(0x6867254eed84)));
    assert_eq!(device.rssi_cnt, 1);
    assert_eq!(device.rssi, 0xc9);
    assert_eq!(device.snr, 0x23);
    println!("esp_devices: {:#?}", device);
}

#[test]
fn test_notify_push() {
    let data = hex::decode("416867254e3ff0ed47000000000c0000000c0001a0764ead1d3000170b04").unwrap();
    let escaped_data = pop_all_escaped(&data);
    let mut esp_tester = EspTester::default();
    esp_tester.trace_esp_data(MSG_TYPE_NOTIFY, &escaped_data);
    let mac_addr = MacAddr::from_tail(hex::decode("6867254e3ff0").unwrap().as_slice());
    assert!(esp_tester.device(&mac_addr).is_some());
    let device = esp_tester.device(&mac_addr).unwrap();
    assert_eq!(device.next_node.unwrap().name(), "COORDINATOR");
}

#[test]
fn mac_names() {
    assert_eq!(MacAddr(0x6867254e3ff0).name(), "First Repeater");
    assert_eq!(MacAddr(0x7cdfa1dee03c).name(), "Support Exit");
    assert_eq!(MacAddr(0x0102030405ff).name(), "0102030405ff");
    assert_eq!(MacAddr(0x0102030405ff).octets(), vec![1, 2, 3, 4, 5, 0xff]);
    assert_eq!(MacAddr::from_tail(&[9, 1, 2, 3, 4, 5, 0xff]), MacAddr(0x0102030405ff));
}

#[test]
fn hop_change_resets_signal() {
    let mut tester = EspTester::new();
    tester.trace_esp_data_at(MSG_TYPE_PUSH_NETSTAT, &netstat_push(0xc9, 0x23, "6867254eed84", 5), 10);
    let d = *tester.device(&MacAddr(0x7cdfa1dee03c)).unwrap();
    assert_eq!((d.rssi_cnt, d.rssi, d.snr), (1, 0xc9, 0x23));
    let outcome =
        tester.trace_esp_data_at(MSG_TYPE_PUSH_NETSTAT, &netstat_push(0x10, 0x05, "6867254e3ff0", 6), 25);
    match outcome {
        TraceOutcome::Netstat { report, .. } => assert!(report.hop_changed),
        _ => panic!("expected a statistics push"),
    }
    let d = *tester.device(&MacAddr(0x7cdfa1dee03c)).unwrap();
    assert_eq!((d.rssi_cnt, d.rssi, d.snr), (1, 0x10, 0x05));
    assert_eq!(d.next_node, Some(MacAddr(0x6867254e3ff0)));
    assert_eq!(d.last_seen, 25);
    assert_eq!(d.last_seen_gap, 15);
    assert_eq!(d.avg_rssi(), 0x10);
}

#[test]
fn same_hop_accumulates_signal() {
    let mut tester = EspTester::new();
    tester.trace_esp_data_at(MSG_TYPE_PUSH_NETSTAT, &netstat_push(10, 4, "6867254eed84", 5), 1);
    tester.trace_esp_data_at(MSG_TYPE_PUSH_NETSTAT, &netstat_push(20, 6, "6867254eed84", 6), 2);
    let d = *tester.device(&MacAddr(0x7cdfa1dee03c)).unwrap();
    assert_eq!((d.rssi_cnt, d.rssi, d.snr), (2, 30, 10));
    assert_eq!((d.avg_rssi(), d.avg_snr()), (15, 5));
    assert_eq!(d.total_sent, 4);
}

#[test]
fn skipped_statistics_levels() {
    let mut tester = EspTester::new();
    tester.trace_esp_data_at(MSG_TYPE_PUSH_NETSTAT, &netstat_push(10, 4, "6867254eed84", 5), 1);
    let r = tester.trace_esp_data_at(MSG_TYPE_PUSH_NETSTAT, &netstat_push(10, 4, "6867254eed84", 7), 2);
    match r {
        TraceOutcome::Netstat { report, .. } => {
            assert_eq!(report.skipped, 1);
            assert_eq!(report.skip_level, Level::Warn);
        }
        _ => panic!("expected a statistics push"),
    }
    let r = tester.trace_esp_data_at(MSG_TYPE_PUSH_NETSTAT, &netstat_push(10, 4, "6867254eed84", 12), 3);
    match r {
        TraceOutcome::Netstat { report, .. } => {
            assert_eq!(report.skipped, 4);
            assert_eq!(report.skip_level, Level::Error);
        }
        _ => panic!("expected a statistics push"),
    }
}

#[test]
fn coordinator_statistics() {
    let mut tester = EspTester::new();
    let r = tester.trace_esp_data_at(MSG_TYPE_PUSH_NETSTAT, &netstat_push(10, 0xff, "6867254eed84", 5), 1);
    match r {
        TraceOutcome::Netstat { report, .. } => assert!(report.coordinator),
        _ => panic!("expected a statistics push"),
    }
    let d = *tester.device(&MacAddr(0x7cdfa1dee03c)).unwrap();
    assert_eq!(d.next_node, None);
    assert_eq!(d.rssi_cnt, 0);
    assert_eq!(d.total_sent, 0);
    assert_eq!(d.total_rx_ntfy, 1);
}

#[test]
fn push_replay_suppression() {
    let mac = MacAddr(0x6867254e3ff0);
    let mut tester = EspTester::new();
    let r = tester.trace_esp_data_at(MSG_TYPE_NOTIFY, &notify(100), 1);
    assert!(matches!(r, TraceOutcome::Notify { accepted: true, push_id: 100, .. }));
    let d: EspDevice = *tester.device(&mac).unwrap();
    assert_eq!(d.last_push_id, 100);
    assert_eq!(d.total_rx_ntfy, 12);
    for id in [100u16, 50] {
        let r = tester.trace_esp_data_at(MSG_TYPE_NOTIFY, &notify(id), 2);
        assert!(matches!(r, TraceOutcome::Notify { accepted: false, .. }));
        let d = *tester.device(&mac).unwrap();
        assert_eq!(d.last_push_id, 100);
        assert_eq!(d.total_rx_ntfy, 12);
        assert_eq!(d.last_seen, 2);
    }
    let r = tester.trace_esp_data_at(MSG_TYPE_NOTIFY, &notify(101), 3);
    assert!(matches!(r, TraceOutcome::Notify { accepted: true, push_id: 101, .. }));
    let d = *tester.device(&mac).unwrap();
    assert_eq!(d.last_push_id, 101);
    assert_eq!(d.total_rx_ntfy, 24);
}

#[test]
fn push_id_wraparound_accepted() {
    let mac = MacAddr(0x6867254e3ff0);
    let mut tester = EspTester::new();
    tester.trace_esp_data_at(MSG_TYPE_NOTIFY, &notify(300), 1);
    let r = tester.trace_esp_data_at(MSG_TYPE_NOTIFY, &notify(199), 2);
    assert!(matches!(r, TraceOutcome::Notify { accepted: true, .. }));
    assert_eq!(tester.device(&mac).unwrap().last_push_id, 199);
    let r = tester.trace_esp_data_at(MSG_TYPE_NOTIFY, &notify(99), 3);
    assert!(matches!(r, TraceOutcome::Notify { accepted: false, .. }));
}

#[test]
fn non_push_notify_and_short_messages() {
    let mut tester = EspTester::new();
    let mut data = notify(5);
    data[0] = 0x01;
    let r = tester.trace_esp_data_at(MSG_TYPE_NOTIFY, &data, 1);
    assert!(matches!(r, TraceOutcome::NotPush { kind: 0x01, .. }));
    assert_eq!(tester.device_count(), 0);
    assert!(matches!(tester.trace_esp_data_at(MSG_TYPE_NOTIFY, &[0x41, 1, 2], 1), TraceOutcome::TooShort));
    assert!(matches!(
        tester.trace_esp_data_at(MSG_TYPE_PUSH_NETSTAT, &[0; 18], 1),
        TraceOutcome::TooShort
    ));
    assert!(matches!(tester.trace_esp_data_at(0x33, &[0; 40], 1), TraceOutcome::Ignored));
    assert_eq!(tester.device_count(), 0);
}

#[test]
fn gpio_push_touches_device() {
    let mut tester = EspTester::new();
    let data = hex::decode("00112233445566777cdfa1dee03c").unwrap();
    let r = tester.trace_esp_data_at(MSG_TYPE_PUSH_GPIO, &data, 7);
    assert!(matches!(r, TraceOutcome::Gpio { addr: MacAddr(0x7cdfa1dee03c) }));
    let d = *tester.device(&MacAddr(0x7cdfa1dee03c)).unwrap();
    assert_eq!(d.last_push_id, 0x6677);
    assert_eq!(d.last_seen, 7);
}

#[test]
fn short_statistics_notify_marks_sender_seen() {
    let mac = MacAddr(0x6867254e3ff0);
    let mut tester = EspTester::new();
    let mut data = hex::decode("416867254e3ff0ed4700").unwrap();
    data.extend_from_slice(&[0x00, 0x05]);
    let r = tester.trace_esp_data_at(MSG_TYPE_NOTIFY, &data, 9);
    assert!(matches!(r, TraceOutcome::TooShort));
    let d = *tester.device(&mac).unwrap();
    assert_eq!(d.last_seen, 9);
    assert_eq!(d.last_push_id, 0);
    assert_eq!(d.total_rx_ntfy, 0);
}

#[test]
fn short_statistics_record_is_read() {
    let mut d = EspDevice::new(MacAddr(0x7cdfa1dee03c), 0);
    let msg = [0x10, 0x05, 1, 0, 0, 2, 3, 4, 5, 6, 7, 0x00, 0x09];
    let report = d.decode_netstat(&msg);
    assert!(!report.coordinator);
    assert_eq!(d.net_stat_ts, 9);
    assert_eq!((d.total_rx_ntfy, d.total_rx_bcast, d.total_rx_direct), (3, 4, 5));
    assert_eq!((d.total_relay_req, d.total_relay_ntfy), (6, 7));
    assert_eq!((d.total_resent, d.total_sent), (1, 2));
    assert_eq!(d.next_node, Some(MacAddr(0x040506070009)));
}

#[test]
fn mac_validity() {
    assert!(MacAddr(0xffff_ffff_ffff).is_valid());
    assert!(!MacAddr(0x1_0000_0000_0000).is_valid());
}
