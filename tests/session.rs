use serial_tester::codec::push_all_escaped;
use serial_tester::framer::{checksum, FrameEvent};
use serial_tester::hexstr::parse_payload;
use serial_tester::mesh::{EspTester, MacAddr, TraceOutcome, MSG_TYPE_NOTIFY};
use serial_tester::session::{
    dispatch, encode_frame, AnswerMailbox, ConnectArgs, Inbound, PendingSlot, Writer, WriterAction,
};

fn message(seq: u16, msg_type: u8, payload: Vec<u8>) -> FrameEvent {
    FrameEvent::Message { seq, msg_type, part: Some(0), payload }
}

#[test]
fn single_outstanding_ack() {
    let mut slot = PendingSlot::new();
    slot.store(5);
    assert!(slot.is_pending());
    assert!(slot.acknowledge(5));
    assert_eq!(slot.load(), 0);
    assert!(!slot.acknowledge(5));
    assert_eq!(slot.load(), 0);
}

#[test]
fn stale_ack_leaves_slot() {
    let mut slot = PendingSlot::new();
    slot.store(6);
    assert!(!slot.acknowledge(5));
    assert_eq!(slot.load(), 6);
}

#[test]
fn mailbox_keeps_first_reply() {
    let mut mailbox = AnswerMailbox::new();
    assert!(mailbox.offer_config_response());
    assert!(!mailbox.offer_config_response());
    let reply = mailbox.take().unwrap();
    let mut expected = vec![0x20, 0xff];
    expected.extend_from_slice(&[0u8; 12]);
    assert_eq!(reply, expected);
    assert!(mailbox.is_empty());
    assert!(mailbox.take().is_none());
}

#[test]
fn writer_synthetic_frames() {
    let mut writer = Writer::new(Vec::new(), Vec::new(), false, false);
    let mut slot = PendingSlot::new();
    let mut mailbox = AnswerMailbox::new();
    match writer.step(&mut slot, &mut mailbox, 3) {
        WriterAction::Send { frame, report_stats } => {
            assert_eq!(frame, vec![0x01, 0x00, 0xff, 0x00, 0x01, 0x02, 0x03, 0x04]);
            assert!(!report_stats);
        }
        WriterAction::Skip => panic!("expected a frame"),
    }
    assert_eq!(slot.load(), 1);
    assert_eq!(writer.totals(), (1, 8, 0));
    match writer.step(&mut slot, &mut mailbox, 0) {
        WriterAction::Send { frame, .. } => assert_eq!(frame, vec![0x02, 0x00, 0xff, 0x01, 0x04]),
        WriterAction::Skip => panic!("expected a frame"),
    }
    assert_eq!(writer.totals(), (2, 13, 1));
    assert_eq!(writer.seq_no(), 2);
    assert_eq!(slot.load(), 2);
}

#[test]
fn writer_sends_reply_first() {
    let mut writer = Writer::new(vec![vec![0xaa]], Vec::new(), false, false);
    let mut slot = PendingSlot::new();
    let mut mailbox = AnswerMailbox::new();
    mailbox.offer_config_response();
    let mut body: Vec<u8> = Vec::new();
    push_all_escaped(&mut body, &[0x20, 0xff, 0, 0, 0, 0, 0, 0, 0, 0, 0, 0, 0, 0]);
    match writer.step(&mut slot, &mut mailbox, 0) {
        WriterAction::Send { frame, .. } => assert_eq!(frame, encode_frame(1, &body)),
        WriterAction::Skip => panic!("expected a frame"),
    }
    assert!(mailbox.is_empty());
    match writer.step(&mut slot, &mut mailbox, 0) {
        WriterAction::Send { frame, .. } => assert_eq!(frame, encode_frame(2, &[0xaa])),
        WriterAction::Skip => panic!("expected a frame"),
    }
}

#[test]
fn writer_cycles_payloads() {
    let payloads = vec![parse_payload("aa04").unwrap(), parse_payload("BB").unwrap()];
    let mut writer = Writer::new(payloads, Vec::new(), true, false);
    let mut slot = PendingSlot::new();
    let mut mailbox = AnswerMailbox::new();
    let mut frames = Vec::new();
    for _ in 0..3 {
        if let WriterAction::Send { frame, .. } = writer.step(&mut slot, &mut mailbox, 0) {
            frames.push(frame);
        }
    }
    assert_eq!(frames[0], encode_frame(1, &[0xaa, 0x1b, 0x34]));
    assert_eq!(frames[1], encode_frame(2, &[0xbb]));
    assert_eq!(frames[2], encode_frame(3, &[0xaa, 0x1b, 0x34]));
    assert_eq!(writer.totals().2, 0);
}

#[test]
fn writer_silent_in_telemetry_mode() {
    let mut writer = Writer::new(Vec::new(), Vec::new(), false, true);
    let mut slot = PendingSlot::new();
    let mut mailbox = AnswerMailbox::new();
    assert!(matches!(writer.step(&mut slot, &mut mailbox, 10), WriterAction::Skip));
    assert_eq!(writer.seq_no(), 1);
    assert_eq!(slot.load(), 0);
    assert_eq!(writer.totals(), (0, 0, 0));
}

#[test]
fn writer_stats_every_sixteenth() {
    let mut writer = Writer::new(Vec::new(), Vec::new(), false, false);
    let mut slot = PendingSlot::new();
    let mut mailbox = AnswerMailbox::new();
    let mut due = Vec::new();
    for _ in 0..32 {
        if let WriterAction::Send { report_stats, .. } = writer.step(&mut slot, &mut mailbox, 0) {
            due.push(report_stats);
        }
    }
    assert!(due[15] && due[31]);
    assert_eq!(due.iter().filter(|d| **d).count(), 2);
}

#[test]
fn send_intervals_cycle() {
    let mut writer = Writer::new(Vec::new(), vec![1, 2], false, false);
    assert_eq!(writer.next_interval_secs(), 1);
    assert_eq!(writer.next_interval_secs(), 2);
    assert_eq!(writer.next_interval_secs(), 1);
    let mut plain = Writer::new(Vec::new(), Vec::new(), false, false);
    assert_eq!(plain.next_interval_secs(), 60);
}

#[test]
fn dispatch_ack_and_config() {
    let mut slot = PendingSlot::new();
    let mut mailbox = AnswerMailbox::new();
    let mut tester = EspTester::new();
    slot.store(5);
    let r = dispatch(&message(5, 0xa0, vec![]), true, false, &mut slot, &mut mailbox, &mut tester, 0);
    assert_eq!(r, Inbound::Acked { seq: 5 });
    assert_eq!(slot.load(), 0);
    let r = dispatch(&message(5, 0xa0, vec![]), true, false, &mut slot, &mut mailbox, &mut tester, 0);
    assert_eq!(r, Inbound::Unexpected { seq: 5, msg_type: 0xa0 });
    let r = dispatch(&message(9, 0x00, vec![]), true, false, &mut slot, &mut mailbox, &mut tester, 0);
    assert_eq!(r, Inbound::ConfigQueued { seq: 9 });
    let r = dispatch(&message(10, 0x00, vec![]), true, false, &mut slot, &mut mailbox, &mut tester, 0);
    assert_eq!(r, Inbound::ConfigRejected { seq: 10 });
    let r = dispatch(&message(11, 0x00, vec![]), false, false, &mut slot, &mut mailbox, &mut tester, 0);
    assert_eq!(r, Inbound::Ignored);
}

#[test]
fn dispatch_debug_frame_passthrough() {
    let mut slot = PendingSlot::new();
    slot.store(3);
    let mut mailbox = AnswerMailbox::new();
    let mut tester = EspTester::new();
    let mut seg = vec![0x00, 0x00, 0x7e];
    seg.extend_from_slice(b"hello");
    let cs = checksum(&seg);
    seg.push(cs);
    let ev = serial_tester::framer::classify_frame(&seg);
    let r = dispatch(&ev, true, true, &mut slot, &mut mailbox, &mut tester, 0);
    assert_eq!(r, Inbound::Debug);
    match ev {
        FrameEvent::Debug { text } => assert_eq!(text, b"hello".to_vec()),
        _ => panic!("expected a text frame"),
    }
    assert_eq!(slot.load(), 3);
    assert!(mailbox.is_empty());
    assert_eq!(tester.device_count(), 0);
}

#[test]
fn dispatch_telemetry() {
    let mut slot = PendingSlot::new();
    let mut mailbox = AnswerMailbox::new();
    let mut tester = EspTester::new();
    let data = hex::decode("416867254e3ff0ed47000000000c0000000c0001a0764ead1d3000170b04").unwrap();
    let r = dispatch(&message(1, MSG_TYPE_NOTIFY, data.clone()), true, true, &mut slot, &mut mailbox, &mut tester, 4);
    match r {
        Inbound::Telemetry { seq: 1, msg_type, outcome } => {
            assert_eq!(msg_type, MSG_TYPE_NOTIFY);
            assert!(matches!(outcome, TraceOutcome::Notify { accepted: true, push_id: 0x0b04, .. }));
        }
        _ => panic!("expected telemetry"),
    }
    assert!(tester.device(&MacAddr(0x6867254e3ff0)).is_some());
    let r = dispatch(&message(2, MSG_TYPE_NOTIFY, data), true, false, &mut slot, &mut mailbox, &mut tester, 4);
    assert_eq!(r, Inbound::Unexpected { seq: 2, msg_type: MSG_TYPE_NOTIFY });
}

#[test]
fn dispatch_corrupt_and_noise() {
    let mut slot = PendingSlot::new();
    let mut mailbox = AnswerMailbox::new();
    let mut tester = EspTester::new();
    let r = dispatch(&FrameEvent::Corrupt { len: 9 }, true, true, &mut slot, &mut mailbox, &mut tester, 0);
    assert_eq!(r, Inbound::Corrupt { len: 9 });
    let r = dispatch(&FrameEvent::Noise, true, true, &mut slot, &mut mailbox, &mut tester, 0);
    assert_eq!(r, Inbound::Ignored);
}

#[test]
fn parse_hex_payloads() {
    assert_eq!(parse_payload("0aFF"), Some(vec![0x0a, 0xff]));
    assert_eq!(parse_payload(""), Some(vec![]));
    assert_eq!(parse_payload("abc"), None);
    assert_eq!(parse_payload("zz"), None);
}

#[test]
fn connect_args_fields() {
    let args = ConnectArgs::new("/dev/ttyUSB0".to_string(), 9600);
    assert_eq!(args.port, "/dev/ttyUSB0");
    assert_eq!(args.baud, 9600);
}

#[test]
fn bare_ack_clears_pending_slot() {
    let mut slot = PendingSlot::new();
    let mut mailbox = AnswerMailbox::new();
    let mut tester = EspTester::new();
    slot.store(5);
    let mut framer = serial_tester::framer::Framer::new();
    let events = framer.receive(&[0x05, 0x00, 0x80, 0x85, 0x04]);
    assert_eq!(events.len(), 1);
    let r = dispatch(&events[0], true, false, &mut slot, &mut mailbox, &mut tester, 0);
    assert_eq!(r, Inbound::Acked { seq: 5 });
    assert_eq!(slot.load(), 0);
}
