//! The duplex session: a writer that paces outgoing frames with at most one
//! awaiting acknowledgment, and the handling of each frame that comes in.
//!
//! The state shared by the two directions lives in small types of its own, so
//! that each can sit behind its own lock.

use vstd::prelude::*;
use crate::codec::{
    DELIM, ESCAPE, STUFF_MASK, stuff, stuff_all, unstuff_first, unstuff_all, push_escaped,
    push_all_escaped, pop_all_escaped, lemma_stuff_all_append, lemma_stuff_all_single,
    lemma_stuffed_has_no_delim,
};
use crate::framer::{
    checksum_of, checksum, EventModel, FrameEvent, event_of, checksum_valid, body_end, is_debug_frame,
    received_checksum, decode_header, skip, MIN_FRAME_LEN, DEBUG_MARKER, last_unit_start,
    unit_len,
};
use crate::mesh::{
    EspDevice, EspTester, TraceOutcome, trace_result, MSG_TYPE_REQ_CONFIG, MSG_TYPE_RES_CONFIG,
    COORDINATOR_MARK,
};

verus! {

/// Link speed when none is given.
pub const DEFAULT_BAUD: u32 = 115_200;

/// Where the link is and how fast it runs.
pub struct ConnectArgs {
    /// Identifier of the serial device.
    pub port: String,
    /// Baud rate.
    pub baud: u32,
}

impl ConnectArgs {
    /// A link on `port` at `baud`.
    pub fn new(port: String, baud: u32) -> (r: ConnectArgs)
        ensures
            r.port@ == port@,
            r.baud == baud,
    {
        ConnectArgs { port, baud }
    }
}

/// Set in the message type of an acknowledgment.
pub const MSG_TYPE_ACK: u8 = 0x80;

/// Seconds between two frames when no pacing was configured.
pub const DEFAULT_SEND_INTERVAL: u64 = 60;

/// Message type byte of a synthetic payload.
pub const SYNTHETIC_TYPE: u8 = 0xFF;

/// The pending-send slot after an acknowledgment for `seq` came in, and
/// whether it was the one awaited.
pub open spec fn ack_result(slot: u16, seq: u16) -> (u16, bool) {
    if slot == seq {
        (0, true)
    } else {
        (slot, false)
    }
}

/// The sequence number of the frame awaiting acknowledgment; zero when none
/// does.
pub struct PendingSlot {
    seq: u16,
}

impl PendingSlot {
    /// The sequence number held.
    pub closed spec fn held(&self) -> u16 {
        self.seq
    }

    /// A slot with nothing awaited.
    pub fn new() -> (r: PendingSlot)
        ensures
            r.held() == 0,
    {
        PendingSlot { seq: 0 }
    }

    /// The sequence number held.
    pub fn load(&self) -> (r: u16)
        ensures
            r == self.held(),
    {
        self.seq
    }

    /// Whether a frame awaits acknowledgment.
    pub fn is_pending(&self) -> (r: bool)
        ensures
            r == (self.held() != 0),
    {
        self.seq != 0
    }

    /// Records that frame `seq` was sent.
    pub fn store(&mut self, seq: u16)
        ensures
            final(self).held() == seq,
    {
        self.seq = seq;
    }

    /// Clears the slot if it holds `seq`; tells whether it did.
    pub fn acknowledge(&mut self, seq: u16) -> (accepted: bool)
        ensures
            (final(self).held(), accepted) == ack_result(old(self).held(), seq),
    {
        if self.seq == seq {
            self.seq = 0;
            true
        } else {
            false
        }
    }
}

/// The coordinator's canned answer to a configuration request: the answer
/// type, the coordinator mark and twelve zeroed statistics bytes.
pub open spec fn config_response() -> Seq<u8> {
    seq![MSG_TYPE_RES_CONFIG, COORDINATOR_MARK, 0u8, 0u8, 0u8, 0u8, 0u8, 0u8, 0u8, 0u8, 0u8, 0u8, 0u8, 0u8]
}

/// A reply waiting for the next send, already stuffed; empty when none waits.
pub struct AnswerMailbox {
    data: Vec<u8>,
}

impl AnswerMailbox {
    /// The reply waiting.
    pub closed spec fn contents(&self) -> Seq<u8> {
        self.data@
    }

    /// The mailbox is empty or holds the configuration answer.
    pub open spec fn wf(&self) -> bool {
        self.contents().len() == 0 || self.contents() == stuff_all(config_response())
    }

    /// An empty mailbox.
    pub fn new() -> (r: AnswerMailbox)
        ensures
            r.wf(),
            r.contents() == Seq::<u8>::empty(),
    {
        AnswerMailbox { data: Vec::new() }
    }

    /// Whether no reply waits.
    pub fn is_empty(&self) -> (r: bool)
        ensures
            r == (self.contents().len() == 0),
    {
        self.data.len() == 0
    }

    /// Queues the configuration answer, unless a reply already waits: that
    /// one is kept and the new request is turned down.
    pub fn offer_config_response(&mut self) -> (queued: bool)
        requires
            old(self).wf(),
        ensures
            final(self).wf(),
            queued == (old(self).contents().len() == 0),
            final(self).contents() == if queued {
                stuff_all(config_response())
            } else {
                old(self).contents()
            },
    {
        if self.data.len() != 0 {
            return false;
        }
        let plain: Vec<u8> = vec![
            MSG_TYPE_RES_CONFIG,
            COORDINATOR_MARK,
            0u8,
            0u8,
            0u8,
            0u8,
            0u8,
            0u8,
            0u8,
            0u8,
            0u8,
            0u8,
            0u8,
            0u8,
        ];
        proof {
            assert(plain@ =~= config_response());
            assert(self.data@ =~= Seq::<u8>::empty());
        }
        push_all_escaped(&mut self.data, plain.as_slice());
        proof {
            assert(Seq::<u8>::empty() + stuff_all(config_response()) =~= stuff_all(config_response()));
        }
        true
    }

    /// Hands out the waiting reply and empties the mailbox.
    pub fn take(&mut self) -> (r: Option<Vec<u8>>)
        requires
            old(self).wf(),
        ensures
            final(self).wf(),
            old(self).contents().len() == 0 ==> r is None && final(self).contents() == old(self).contents(),
            old(self).contents().len() != 0 ==> (r matches Some(v) && v@ == old(self).contents()
                && final(self).contents() == Seq::<u8>::empty()),
    {
        if self.data.len() == 0 {
            None
        } else {
            let mut v: Vec<u8> = Vec::new();
            std::mem::swap(&mut v, &mut self.data);
            Some(v)
        }
    }
}

/// Low byte of a sequence number.
pub open spec fn seq_lo(seq: u16) -> u8 {
    (seq % 256) as u8
}

/// High byte of a sequence number.
pub open spec fn seq_hi(seq: u16) -> u8 {
    (seq / 256) as u8
}

/// A frame on the wire: the stuffed sequence number, low byte first, the
/// stuffed body, the stuffed checksum of all that, and a delimiter.
pub open spec fn frame_of(seq: u16, stuffed_body: Seq<u8>) -> Seq<u8> {
    let pre = stuff(seq_lo(seq)) + stuff(seq_hi(seq)) + stuffed_body;
    pre + stuff(checksum_of(pre)) + seq![DELIM]
}

/// Builds the frame for sequence number `seq` around a body that is already
/// stuffed.
pub fn encode_frame(seq: u16, stuffed_body: &[u8]) -> (r: Vec<u8>)
    ensures
        r@ == frame_of(seq, stuffed_body@),
{
    let mut buf: Vec<u8> = Vec::new();
    push_escaped(&mut buf, (seq % 256) as u8);
    push_escaped(&mut buf, (seq / 256) as u8);
    let mut i: usize = 0;
    let ghost head = buf@;
    while i < stuffed_body.len()
        invariant
            i <= stuffed_body@.len(),
            buf@ == head + stuffed_body@.subrange(0, i as int),
        decreases stuffed_body@.len() - i,
    {
        buf.push(stuffed_body[i]);
        proof {
            assert(head + stuffed_body@.subrange(0, i + 1) =~= buf@);
        }
        i = i + 1;
    }
    proof {
        assert(stuffed_body@.subrange(0, stuffed_body@.len() as int) =~= stuffed_body@);
    }
    let csum = checksum(buf.as_slice());
    push_escaped(&mut buf, csum);
    buf.push(DELIM);
    buf
}

/// The synthetic payload: the synthetic message type, then `len` bytes
/// counting up from zero and wrapping round.
pub open spec fn synthetic_body(len: nat) -> Seq<u8> {
    seq![SYNTHETIC_TYPE] + Seq::new(len, |i: int| (i % 256) as u8)
}

/// Builds the synthetic payload of `len` counting bytes.
pub fn synthetic_payload(len: usize) -> (r: Vec<u8>)
    ensures
        r@ == synthetic_body(len as nat),
{
    let mut r: Vec<u8> = vec![SYNTHETIC_TYPE];
    let mut i: usize = 0;
    while i < len
        invariant
            i <= len,
            r@ == seq![SYNTHETIC_TYPE] + Seq::new(i as nat, |j: int| (j % 256) as u8),
        decreases len - i,
    {
        r.push((i % 256) as u8);
        proof {
            assert(r@ =~= seq![SYNTHETIC_TYPE] + Seq::new((i + 1) as nat, |j: int| (j % 256) as u8));
        }
        i = i + 1;
    }
    r
}

/// What the writer does on its turn.
pub enum WriterAction {
    /// Nothing to send this turn.
    Skip,
    /// Write `frame` to the link; `report_stats` when the counters are due
    /// for the log.
    Send { frame: Vec<u8>, report_stats: bool },
}

/// Whether the counters are due for the log after frame `seq`.
pub open spec fn stats_due(load_send: bool, seq: u16) -> bool {
    (!load_send && seq % 16 == 0) || seq % 1024 == 0
}

/// Pacing and sequence numbering of outgoing frames, with their counters.
pub struct Writer {
    seq_no: u16,
    payloads: Vec<Vec<u8>>,
    next_payload: usize,
    send_times: Vec<u64>,
    next_time: usize,
    load_send: bool,
    esp_test: bool,
    total_sent: u64,
    total_sent_bytes: u64,
    total_nack: u64,
}

impl Writer {
    /// The cursors stay inside their lists.
    pub closed spec fn wf(&self) -> bool {
        &&& (self.payloads@.len() == 0 || self.next_payload < self.payloads@.len())
        &&& (self.send_times@.len() == 0 || self.next_time < self.send_times@.len())
    }

    /// Sequence number of the last frame built.
    pub closed spec fn seq(&self) -> u16 {
        self.seq_no
    }

    /// Configured payloads, sent in turn.
    pub closed spec fn payloads(&self) -> Seq<Seq<u8>> {
        self.payloads@.map_values(|p: Vec<u8>| p@)
    }

    /// Index of the configured payload sent next.
    pub closed spec fn next_payload(&self) -> nat {
        self.next_payload as nat
    }

    /// Configured pauses between frames, in seconds, used in turn.
    pub closed spec fn send_times(&self) -> Seq<u64> {
        self.send_times@
    }

    /// Index of the pause used next.
    pub closed spec fn next_time(&self) -> nat {
        self.next_time as nat
    }

    /// Whether frames go out back to back, unpaced and unwatched.
    pub closed spec fn load_send(&self) -> bool {
        self.load_send
    }

    /// Whether, with nothing else to send, the writer stays silent.
    pub closed spec fn esp_test(&self) -> bool {
        self.esp_test
    }

    /// Frames sent, bytes sent, and turns that found the last frame still
    /// unacknowledged.
    pub closed spec fn counters(&self) -> (u64, u64, u64) {
        (self.total_sent, self.total_sent_bytes, self.total_nack)
    }

    /// A writer that has sent nothing yet.
    pub fn new(payloads: Vec<Vec<u8>>, send_times: Vec<u64>, load_send: bool, esp_test: bool) -> (r:
        Writer)
        ensures
            r.wf(),
            r.seq() == 0,
            r.payloads() == payloads@.map_values(|p: Vec<u8>| p@),
            r.next_payload() == 0,
            r.send_times() == send_times@,
            r.next_time() == 0,
            r.load_send() == load_send,
            r.esp_test() == esp_test,
            r.counters() == (0u64, 0u64, 0u64),
    {
        Writer {
            seq_no: 0,
            payloads,
            next_payload: 0,
            send_times,
            next_time: 0,
            load_send,
            esp_test,
            total_sent: 0,
            total_sent_bytes: 0,
            total_nack: 0,
        }
    }

    /// Seconds to wait before the next frame: the configured pauses in turn,
    /// or the default when none was configured.
    pub fn next_interval_secs(&mut self) -> (r: u64)
        requires
            old(self).wf(),
        ensures
            final(self).wf(),
            old(self).send_times().len() == 0 ==> r == DEFAULT_SEND_INTERVAL && final(self).next_time() == old(self).next_time(),
            final(self).send_times() == old(self).send_times(),
            old(self).send_times().len() != 0 ==> r == old(self).send_times()[old(self).next_time() as int] && final(self).next_time() == (old(self).next_time() + 1)
                % old(self).send_times().len(),
            final(self).seq() == old(self).seq(),
            final(self).payloads() == old(self).payloads(),
            final(self).next_payload() == old(self).next_payload(),
            final(self).counters() == old(self).counters(),
            final(self).load_send() == old(self).load_send(),
            final(self).esp_test() == old(self).esp_test(),
    {
        if self.send_times.len() == 0 {
            return DEFAULT_SEND_INTERVAL;
        }
        let r = self.send_times[self.next_time];
        self.next_time = (self.next_time + 1) % self.send_times.len();
        r
    }

    /// Frames sent, bytes sent, and turns that found the last frame still
    /// unacknowledged.
    pub fn totals(&self) -> (r: (u64, u64, u64))
        ensures
            r == self.counters(),
    {
        (self.total_sent, self.total_sent_bytes, self.total_nack)
    }

    /// Sequence number of the last frame built.
    pub fn seq_no(&self) -> (r: u16)
        ensures
            r == self.seq(),
    {
        self.seq_no
    }

    /// One turn of the writer. Unless in load mode, a frame still awaiting
    /// acknowledgment is counted as unanswered; it is not sent again. The
    /// sequence number goes up by one, wrapping round. The body is the waiting
    /// reply, else the next configured payload, else, unless the writer is to
    /// stay silent, the synthetic payload of `random_len` counting bytes. The
    /// frame's sequence number then awaits acknowledgment. The frame holds
    /// the delimiter once, as its last byte.
    pub fn step(&mut self, slot: &mut PendingSlot, mailbox: &mut AnswerMailbox, random_len: usize) -> (r:
        WriterAction)
        requires
            old(self).wf(),
            old(mailbox).wf(),
        ensures
            final(self).wf(),
            final(mailbox).wf(),
            r matches WriterAction::Send { frame, .. } ==> frame@.last() == DELIM && forall|i: int|
                0 <= i < frame@.len() - 1 ==> #[trigger] frame@[i] != DELIM,
            final(self).seq() == old(self).seq().wrapping_add(1),
            final(self).counters().2 == if !old(self).load_send() && old(slot).held() != 0 {
                old(self).counters().2.saturating_add(1)
            } else {
                old(self).counters().2
            },
            final(self).payloads() == old(self).payloads(),
            final(self).send_times() == old(self).send_times(),
            final(self).next_time() == old(self).next_time(),
            final(self).load_send() == old(self).load_send(),
            final(self).esp_test() == old(self).esp_test(),
            ({
                let seq = final(self).seq();
                let from_mailbox = old(mailbox).contents().len() != 0;
                let from_list = !from_mailbox && old(self).payloads().len() != 0;
                let body = if from_mailbox {
                    old(mailbox).contents()
                } else if from_list {
                    stuff_all(old(self).payloads()[old(self).next_payload() as int])
                } else {
                    stuff_all(synthetic_body(random_len as nat))
                };
                &&& final(mailbox).contents() == if from_mailbox {
                    Seq::<u8>::empty()
                } else {
                    old(mailbox).contents()
                }
                &&& final(self).next_payload() == if from_list {
                    (old(self).next_payload() + 1) % old(self).payloads().len()
                } else {
                    old(self).next_payload()
                }
                &&& if !from_mailbox && !from_list && old(self).esp_test() {
                    &&& r is Skip
                    &&& final(slot).held() == old(slot).held()
                    &&& final(self).counters().0 == old(self).counters().0
                    &&& final(self).counters().1 == old(self).counters().1
                } else {
                    &&& r matches WriterAction::Send { frame, report_stats }
                    &&& frame@ == frame_of(seq, body)
                    &&& report_stats == stats_due(old(self).load_send(), seq)
                    &&& final(slot).held() == seq
                    &&& final(self).counters().0 == old(self).counters().0.saturating_add(1)
                    &&& final(self).counters().1 == old(self).counters().1.saturating_add(
                        frame@.len() as u64,
                    )
                }
            }),
    {
        if !self.load_send && slot.is_pending() {
            self.total_nack = self.total_nack.saturating_add(1);
        }
        self.seq_no = self.seq_no.wrapping_add(1);
        let seq = self.seq_no;
        let body: Vec<u8>;
        match mailbox.take() {
            Some(reply) => {
                proof {
                    lemma_frame_delim_only_at_end(self.seq_no, config_response());
                }
                body = reply;
            },
            None => {
                if self.payloads.len() != 0 {
                    let mut stuffed: Vec<u8> = Vec::new();
                    push_all_escaped(&mut stuffed, self.payloads[self.next_payload].as_slice());
                    proof {
                        assert(self.payloads@.map_values(|p: Vec<u8>| p@)[self.next_payload as int]
                            == self.payloads@[self.next_payload as int]@);
                        assert(Seq::<u8>::empty() + stuff_all(
                            self.payloads@[self.next_payload as int]@,
                        ) =~= stuff_all(self.payloads@[self.next_payload as int]@));
                    }
                    proof {
                        lemma_frame_delim_only_at_end(
                            self.seq_no,
                            self.payloads@[self.next_payload as int]@,
                        );
                    }
                    self.next_payload = (self.next_payload + 1) % self.payloads.len();
                    body = stuffed;
                } else if self.esp_test {
                    return WriterAction::Skip;
                } else {
                    let plain = synthetic_payload(random_len);
                    let mut stuffed: Vec<u8> = Vec::new();
                    push_all_escaped(&mut stuffed, plain.as_slice());
                    proof {
                        assert(Seq::<u8>::empty() + stuff_all(plain@) =~= stuff_all(plain@));
                        lemma_frame_delim_only_at_end(self.seq_no, plain@);
                    }
                    body = stuffed;
                }
            },
        }
        let frame = encode_frame(seq, body.as_slice());
        slot.store(seq);
        self.total_sent_bytes = self.total_sent_bytes.saturating_add(frame.len() as u64);
        self.total_sent = self.total_sent.saturating_add(1);
        let report_stats = (!self.load_send && seq % 16 == 0) || seq % 1024 == 0;
        WriterAction::Send { frame, report_stats }
    }
}

/// What became of one candidate frame that came in.
#[derive(Clone, Copy, Debug, PartialEq, Eq)]
pub enum Inbound {
    /// Noise, an undecodable header, or a message while sending is off.
    Ignored,
    /// The checksum did not match.
    Corrupt { len: usize },
    /// A free-form text frame, for the console.
    Debug,
    /// The acknowledgment for the frame awaited.
    Acked { seq: u16 },
    /// A configuration request, answered on the next send.
    ConfigQueued { seq: u16 },
    /// A configuration request turned down: a reply already waits.
    ConfigRejected { seq: u16 },
    /// A telemetry message, and what it did.
    Telemetry { seq: u16, msg_type: u8, outcome: TraceOutcome },
    /// A message with nothing to do: an acknowledgment not awaited, or a
    /// request of another type.
    Unexpected { seq: u16, msg_type: u8 },
}

/// The pending-send slot, the mailbox and the device registry after one
/// candidate frame came in at `now`, and what became of it.
pub open spec fn dispatch_result(
    ev: EventModel,
    send_enabled: bool,
    telemetry: bool,
    slot: u16,
    mailbox: Seq<u8>,
    devices: Map<u64, EspDevice>,
    now: u64,
) -> (u16, Seq<u8>, Map<u64, EspDevice>, Inbound) {
    match ev {
        EventModel::Corrupt { len } => (slot, mailbox, devices, Inbound::Corrupt { len: len as usize }),
        EventModel::Debug { .. } => (slot, mailbox, devices, Inbound::Debug),
        EventModel::Message { seq, msg_type, part, payload } => {
            if !send_enabled {
                (slot, mailbox, devices, Inbound::Ignored)
            } else if msg_type & MSG_TYPE_ACK != 0 && slot == seq {
                (0, mailbox, devices, Inbound::Acked { seq })
            } else if msg_type == MSG_TYPE_REQ_CONFIG {
                if mailbox.len() == 0 {
                    (slot, stuff_all(config_response()), devices, Inbound::ConfigQueued { seq })
                } else {
                    (slot, mailbox, devices, Inbound::ConfigRejected { seq })
                }
            } else if telemetry {
                let (d2, outcome) = trace_result(devices, msg_type, unstuff_all(payload), now);
                (slot, mailbox, d2, Inbound::Telemetry { seq, msg_type, outcome })
            } else {
                (slot, mailbox, devices, Inbound::Unexpected { seq, msg_type })
            }
        },
        _ => (slot, mailbox, devices, Inbound::Ignored),
    }
}

/// Acts on one candidate frame that came in at `now`. An acknowledgment for
/// the awaited frame clears the pending-send slot. A configuration request
/// queues the canned answer when the mailbox is free. With telemetry on,
/// other messages go, unstuffed, to the device registry.
pub fn dispatch(
    ev: &FrameEvent,
    send_enabled: bool,
    telemetry: bool,
    slot: &mut PendingSlot,
    mailbox: &mut AnswerMailbox,
    tester: &mut EspTester,
    now: u64,
) -> (r: Inbound)
    requires
        old(tester).wf(),
        old(mailbox).wf(),
    ensures
        final(tester).wf(),
        final(mailbox).wf(),
        (final(slot).held(), final(mailbox).contents(), final(tester).devices(), r)
            == dispatch_result(
            ev@,
            send_enabled,
            telemetry,
            old(slot).held(),
            old(mailbox).contents(),
            old(tester).devices(),
            now,
        ),
{
    match ev {
        FrameEvent::Corrupt { len } => Inbound::Corrupt { len: *len },
        FrameEvent::Debug { .. } => Inbound::Debug,
        FrameEvent::Message { seq, msg_type, part: _, payload } => {
            let seq = *seq;
            let msg_type = *msg_type;
            if !send_enabled {
                Inbound::Ignored
            } else if msg_type & MSG_TYPE_ACK != 0 && slot.acknowledge(seq) {
                Inbound::Acked { seq }
            } else if msg_type == MSG_TYPE_REQ_CONFIG {
                if mailbox.offer_config_response() {
                    Inbound::ConfigQueued { seq }
                } else {
                    Inbound::ConfigRejected { seq }
                }
            } else if telemetry {
                let data = pop_all_escaped(payload.as_slice());
                let outcome = tester.trace_esp_data_at(msg_type, data.as_slice(), now);
                Inbound::Telemetry { seq, msg_type, outcome }
            } else {
                Inbound::Unexpected { seq, msg_type }
            }
        },
        _ => Inbound::Ignored,
    }
}

/// The bytes a frame's checksum covers: the stuffed sequence number and body.
pub open spec fn checksummed_part(seq: u16, payload: Seq<u8>) -> Seq<u8> {
    stuff(seq_lo(seq)) + stuff(seq_hi(seq)) + stuff_all(payload)
}

proof fn lemma_checksummed_part_is_stuffed(seq: u16, payload: Seq<u8>)
    ensures
        checksummed_part(seq, payload) == stuff_all(seq![seq_lo(seq), seq_hi(seq)] + payload),
{
    let head = seq![seq_lo(seq), seq_hi(seq)];
    lemma_stuff_all_append(head, payload);
    assert(head.drop_last() =~= seq![seq_lo(seq)]);
    lemma_stuff_all_single(seq_lo(seq));
    assert(stuff_all(head) =~= stuff(seq_lo(seq)) + stuff(seq_hi(seq)));
}

/// A frame built from any payload holds the delimiter once, as its last byte.
pub proof fn lemma_frame_delim_only_at_end(seq: u16, payload: Seq<u8>)
    ensures
        frame_of(seq, stuff_all(payload)).last() == DELIM,
        forall|i: int|
            0 <= i < frame_of(seq, stuff_all(payload)).len() - 1 ==> #[trigger] frame_of(
                seq,
                stuff_all(payload),
            )[i] != DELIM,
{
    let plain = seq![seq_lo(seq), seq_hi(seq)] + payload;
    lemma_checksummed_part_is_stuffed(seq, payload);
    let pre = checksummed_part(seq, payload);
    let cs = checksum_of(pre);
    lemma_stuffed_has_no_delim(plain);
    lemma_stuffed_has_no_delim(seq![cs]);
    lemma_stuff_all_single(cs);
    let f = frame_of(seq, stuff_all(payload));
    assert(f =~= pre + stuff(cs) + seq![DELIM]);
    assert forall|i: int| 0 <= i < f.len() - 1 implies #[trigger] f[i] != DELIM by {
        if i < pre.len() {
            assert(f[i] == stuff_all(plain)[i]);
        } else {
            assert(f[i] == stuff_all(seq![cs])[i - pre.len()]);
        }
    }
}

/// Reading a stuffed stretch unit by unit steps over it exactly, whatever
/// follows it.
proof fn lemma_scan_stuffed(w: Seq<u8>, p: nat, x: Seq<u8>)
    requires
        p + stuff_all(x).len() < w.len(),
        w.subrange(p as int, p as int + stuff_all(x).len()) == stuff_all(x),
    ensures
        last_unit_start(w, p) == last_unit_start(w, p + stuff_all(x).len()),
    decreases x.len(),
{
    if x.len() > 0 {
        let x0 = x[0];
        let rest = x.subrange(1, x.len() as int);
        assert(seq![x0] + rest =~= x);
        lemma_stuff_all_append(seq![x0], rest);
        lemma_stuff_all_single(x0);
        let l = stuff(x0).len();
        let sx = stuff_all(x);
        assert(sx == stuff(x0) + stuff_all(rest));
        assert(w[p as int] == sx[0]);
        if l == 2 {
            assert(w[p as int + 1] == sx[1]);
        }
        assert(unit_len(w, p as int) == l);
        assert(w.subrange(p as int + l, p as int + l + stuff_all(rest).len()) =~= stuff_all(rest)) by {
            assert forall|i: int| 0 <= i < stuff_all(rest).len() implies w.subrange(
                p as int + l,
                p as int + l + stuff_all(rest).len(),
            )[i] == stuff_all(rest)[i] by {
                assert(w[p as int + l + i] == w.subrange(p as int, p as int + sx.len())[l + i]);
            }
        }
        lemma_scan_stuffed(w, p + l, rest);
    }
}

/// The checksum a writer puts on a frame is the one the receiver checks it
/// against, and the receiver finds the body's end where the writer put it.
pub proof fn lemma_frame_checksum_validates(seq: u16, payload: Seq<u8>)
    ensures
        ({
            let seg = frame_of(seq, stuff_all(payload)).drop_last();
            &&& seg.len() >= MIN_FRAME_LEN
            &&& body_end(seg) == checksummed_part(seq, payload).len()
            &&& checksum_valid(seg)
        }),
{
    let plain = seq![seq_lo(seq), seq_hi(seq)] + payload;
    lemma_checksummed_part_is_stuffed(seq, payload);
    let pre = checksummed_part(seq, payload);
    let cs = checksum_of(pre);
    let seg = frame_of(seq, stuff_all(payload)).drop_last();
    assert(seg =~= pre + stuff(cs));
    assert(pre.len() >= 2) by {
        assert(stuff(seq_lo(seq)).len() >= 1);
        assert(stuff(seq_hi(seq)).len() >= 1);
    }
    assert(DELIM | STUFF_MASK != ESCAPE) by (bit_vector);
    assert((DELIM | STUFF_MASK) & !STUFF_MASK == DELIM) by (bit_vector);
    assert(seg.subrange(0, pre.len() as int) =~= pre);
    lemma_scan_stuffed(seg, 0, plain);
    let q = pre.len();
    assert(seg[q as int] == stuff(cs)[0]);
    if stuff(cs).len() == 2 {
        assert(seg[q as int + 1] == stuff(cs)[1]);
    }
    assert(unit_len(seg, q as int) == stuff(cs).len());
    assert(last_unit_start(seg, q) == q);
    assert(received_checksum(seg) == cs);
}

proof fn lemma_unstuff_first_stuff(b: u8, rest: Seq<u8>)
    ensures
        unstuff_first(stuff(b) + rest) == Some((b, stuff(b).len())),
        skip(stuff(b) + rest, stuff(b).len()) == rest,
{
    assert((DELIM | STUFF_MASK) & !STUFF_MASK == DELIM) by (bit_vector);
    assert(DELIM | STUFF_MASK != ESCAPE) by (bit_vector);
    assert(skip(stuff(b) + rest, stuff(b).len()) =~= rest);
}

proof fn lemma_skip_parts(sa: Seq<u8>, sb: Seq<u8>, sc: Seq<u8>, sd: Seq<u8>, rest: Seq<u8>)
    ensures
        ({
            let w = sa + sb + sc + sd + rest;
            &&& w == sa + (sb + (sc + (sd + rest)))
            &&& skip(w, sa.len()) == sb + (sc + (sd + rest))
            &&& skip(w, sa.len() + sb.len()) == sc + (sd + rest)
            &&& skip(w, sa.len() + sb.len() + sc.len()) == sd + rest
            &&& skip(w, sa.len() + sb.len() + sc.len() + sd.len()) == rest
        }),
{
    let w = sa + sb + sc + sd + rest;
    assert(w =~= sa + (sb + (sc + (sd + rest))));
    assert(skip(w, sa.len()) =~= sb + (sc + (sd + rest)));
    assert(skip(w, sa.len() + sb.len()) =~= sc + (sd + rest));
    assert(skip(w, sa.len() + sb.len() + sc.len()) =~= sd + rest);
    assert(skip(w, sa.len() + sb.len() + sc.len() + sd.len()) =~= rest);
}

proof fn lemma_decode_stuffed_header(a: u8, b: u8, c: u8, d: u8, rest: Seq<u8>)
    ensures
        ({
            let w = stuff(a) + stuff(b) + stuff(c) + stuff(d) + rest;
            let n = stuff(a).len() + stuff(b).len() + stuff(c).len() + stuff(d).len();
            &&& decode_header(w) == Some(((a as int + 256 * b as int) as u16, c, Some(d), n))
            &&& skip(w, n) == rest
        }),
{
    let w = stuff(a) + stuff(b) + stuff(c) + stuff(d) + rest;
    lemma_skip_parts(stuff(a), stuff(b), stuff(c), stuff(d), rest);
    lemma_unstuff_first_stuff(a, stuff(b) + (stuff(c) + (stuff(d) + rest)));
    lemma_unstuff_first_stuff(b, stuff(c) + (stuff(d) + rest));
    lemma_unstuff_first_stuff(c, stuff(d) + rest);
    lemma_unstuff_first_stuff(d, rest);
}

/// What the writer frames, the reader gets back: a frame built around a
/// message type, a part byte and a payload, cut off at its delimiter, decodes
/// to the same sequence number, type and part, with the payload still stuffed.
/// The one exception is sequence number zero with the text-frame marker as
/// its type, which reads as a text frame.
pub proof fn lemma_frame_round_trip(seq: u16, msg_type: u8, part: u8, payload: Seq<u8>)
    requires
        !(seq == 0 && msg_type == DEBUG_MARKER),
    ensures
        event_of(frame_of(seq, stuff_all(seq![msg_type, part] + payload)).drop_last())
            == (EventModel::Message { seq, msg_type, part: Some(part), payload: stuff_all(payload) }),
{
    let inner = seq![msg_type, part] + payload;
    let pre = checksummed_part(seq, inner);
    let seg = frame_of(seq, stuff_all(inner)).drop_last();
    let tail = stuff(part) + stuff_all(payload);
    let w = stuff(seq_lo(seq)) + stuff(seq_hi(seq)) + stuff(msg_type) + tail;
    lemma_frame_checksum_validates(seq, inner);
    lemma_frame_parts(seq, inner);
    lemma_checksummed_part_split(seq, msg_type, part, payload);
    lemma_not_text_frame(seq, msg_type, tail);
    let n = stuff(seq_lo(seq)).len() + stuff(seq_hi(seq)).len() + stuff(msg_type).len() + stuff(
        part,
    ).len();
    lemma_decode_stuffed_header(seq_lo(seq), seq_hi(seq), msg_type, part, stuff_all(payload));
    lemma_seq_bytes(seq);
    lemma_event_of_message(seg, seq, msg_type, Some(part), stuff_all(payload), n);
}

proof fn lemma_decode_bare_header(a: u8, b: u8, c: u8)
    ensures
        ({
            let w = stuff(a) + stuff(b) + stuff(c);
            let n = stuff(a).len() + stuff(b).len() + stuff(c).len();
            &&& decode_header(w) == Some(((a as int + 256 * b as int) as u16, c, None::<u8>, n))
            &&& skip(w, n) == Seq::<u8>::empty()
        }),
{
    let e = Seq::<u8>::empty();
    let w = stuff(a) + stuff(b) + stuff(c);
    assert(w =~= stuff(a) + stuff(b) + stuff(c) + e);
    lemma_skip_parts(stuff(a), stuff(b), stuff(c), e, e);
    assert(stuff(c) + (e + e) =~= stuff(c) + e);
    assert(stuff(b) + (stuff(c) + (e + e)) =~= stuff(b) + (stuff(c) + e));
    lemma_unstuff_first_stuff(a, stuff(b) + (stuff(c) + e));
    lemma_unstuff_first_stuff(b, stuff(c) + e);
    lemma_unstuff_first_stuff(c, e);
}

/// A frame whose body is a message type alone, such as a bare
/// acknowledgment, decodes to its sequence number and type, with no part and
/// an empty payload. The one exception is sequence number zero with the
/// text-frame marker as its type, which reads as a text frame.
pub proof fn lemma_bare_frame_round_trip(seq: u16, msg_type: u8)
    requires
        !(seq == 0 && msg_type == DEBUG_MARKER),
    ensures
        event_of(frame_of(seq, stuff(msg_type)).drop_last()) == (EventModel::Message {
            seq,
            msg_type,
            part: None,
            payload: Seq::<u8>::empty(),
        }),
{
    let inner = seq![msg_type];
    lemma_stuff_all_single(msg_type);
    let pre = checksummed_part(seq, inner);
    let seg = frame_of(seq, stuff(msg_type)).drop_last();
    lemma_frame_checksum_validates(seq, inner);
    lemma_frame_parts(seq, inner);
    let w = stuff(seq_lo(seq)) + stuff(seq_hi(seq)) + stuff(msg_type);
    assert(pre == w);
    lemma_not_text_frame(seq, msg_type, Seq::<u8>::empty());
    assert(w =~= stuff(seq_lo(seq)) + stuff(seq_hi(seq)) + stuff(msg_type) + Seq::<u8>::empty());
    let n = stuff(seq_lo(seq)).len() + stuff(seq_hi(seq)).len() + stuff(msg_type).len();
    lemma_decode_bare_header(seq_lo(seq), seq_hi(seq), msg_type);
    lemma_seq_bytes(seq);
    lemma_event_of_message(seg, seq, msg_type, None, Seq::<u8>::empty(), n);
}

proof fn lemma_seq_bytes(seq: u16)
    ensures
        (seq_lo(seq) as int + 256 * seq_hi(seq) as int) as u16 == seq,
{
}

proof fn lemma_frame_parts(seq: u16, inner: Seq<u8>)
    ensures
        ({
            let pre = checksummed_part(seq, inner);
            let seg = frame_of(seq, stuff_all(inner)).drop_last();
            &&& seg == pre + stuff(checksum_of(pre))
            &&& seg.subrange(0, pre.len() as int) == pre
            &&& forall|i: int| 0 <= i < pre.len() ==> seg[i] == pre[i]
        }),
{
    let pre = checksummed_part(seq, inner);
    let seg = frame_of(seq, stuff_all(inner)).drop_last();
    assert(seg =~= pre + stuff(checksum_of(pre)));
    assert(seg.subrange(0, pre.len() as int) =~= pre);
}

proof fn lemma_checksummed_part_split(seq: u16, t: u8, p: u8, payload: Seq<u8>)
    ensures
        checksummed_part(seq, seq![t, p] + payload) == stuff(seq_lo(seq)) + stuff(seq_hi(seq))
            + stuff(t) + (stuff(p) + stuff_all(payload)),
        checksummed_part(seq, seq![t, p] + payload) == stuff(seq_lo(seq)) + stuff(seq_hi(seq))
            + stuff(t) + stuff(p) + stuff_all(payload),
{
    lemma_inner_stuffed(t, p, payload);
    assert(checksummed_part(seq, seq![t, p] + payload) =~= stuff(seq_lo(seq)) + stuff(seq_hi(seq))
        + stuff(t) + (stuff(p) + stuff_all(payload)));
    assert(checksummed_part(seq, seq![t, p] + payload) =~= stuff(seq_lo(seq)) + stuff(seq_hi(seq))
        + stuff(t) + stuff(p) + stuff_all(payload));
}

proof fn lemma_event_of_message(
    seg: Seq<u8>,
    seq: u16,
    t: u8,
    p: Option<u8>,
    payload: Seq<u8>,
    n: nat,
)
    requires
        seg.len() >= MIN_FRAME_LEN,
        checksum_valid(seg),
        !is_debug_frame(seg),
        decode_header(seg.subrange(0, body_end(seg) as int)) == Some((seq, t, p, n)),
        skip(seg.subrange(0, body_end(seg) as int), n) == payload,
    ensures
        event_of(seg) == (EventModel::Message { seq, msg_type: t, part: p, payload }),
{
}

proof fn lemma_inner_stuffed(t: u8, p: u8, payload: Seq<u8>)
    ensures
        stuff_all(seq![t, p] + payload) == stuff(t) + stuff(p) + stuff_all(payload),
{
    lemma_stuff_all_append(seq![t, p], payload);
    assert(seq![t, p].drop_last() =~= seq![t]);
    lemma_stuff_all_single(t);
    assert(stuff_all(seq![t, p]) =~= stuff(t) + stuff(p));
}

proof fn lemma_not_text_frame(seq: u16, t: u8, rest: Seq<u8>)
    requires
        !(seq == 0 && t == DEBUG_MARKER),
    ensures
        ({
            let w = stuff(seq_lo(seq)) + stuff(seq_hi(seq)) + stuff(t) + rest;
            forall|x: Seq<u8>|
                x.len() >= 3 && x[0] == w[0] && x[1] == w[1] && x[2] == w[2] ==> !is_debug_frame(x)
        }),
{
    let w = stuff(seq_lo(seq)) + stuff(seq_hi(seq)) + stuff(t) + rest;
    assert(w[0] == stuff(seq_lo(seq))[0]);
    if seq_lo(seq) == 0 {
        assert(w[1] == stuff(seq_hi(seq))[0]);
        if seq_hi(seq) == 0 {
            assert(w[2] == stuff(t)[0]);
        }
    }
}

/// Window of one: once frame `n` is sent, its acknowledgment clears the slot,
/// and a second acknowledgment for `n` finds nothing to clear.
pub proof fn lemma_single_outstanding(n: u16)
    requires
        n != 0,
    ensures
        ack_result(n, n) == (0u16, true),
        ack_result(ack_result(n, n).0, n) == (0u16, false),
{
}

/// A checked frame that opens with the text marker is text for the console
/// and nothing else: the pending-send slot, the mailbox and the device
/// registry stay as they were.
pub proof fn lemma_debug_passthrough(
    seg: Seq<u8>,
    send_enabled: bool,
    telemetry: bool,
    slot: u16,
    mailbox: Seq<u8>,
    devices: Map<u64, EspDevice>,
    now: u64,
)
    requires
        seg.len() >= MIN_FRAME_LEN,
        checksum_valid(seg),
        is_debug_frame(seg),
    ensures
        event_of(seg) == (EventModel::Debug { text: seg.subrange(3, body_end(seg) as int) }),
        dispatch_result(event_of(seg), send_enabled, telemetry, slot, mailbox, devices, now) == (
            slot,
            mailbox,
            devices,
            Inbound::Debug,
        ),
{
}

} // verus!
