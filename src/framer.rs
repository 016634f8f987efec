//! Stream framing: cuts a chunked byte stream at delimiter bytes, checks each
//! candidate frame's checksum and classifies what it carries.
//!
//! Every delimiter-valued byte ends a frame, whatever precedes it. A stuffed
//! payload never holds one, so only a malformed peer can tell this rule apart
//! from one that also looks for a preceding escape introducer.

use vstd::prelude::*;
use crate::codec::{DELIM, ESCAPE, STUFF_MASK, unescape, unstuff_first, pop_escaped};

verus! {

/// Bytes handed over by one read of the link, at most.
pub const READ_BUF_SIZE: usize = 128;

/// Size of the receive buffer: five reads, and room to spare.
pub const MAX_BUFFER_SIZE: usize = 5 * READ_BUF_SIZE + 20;

/// Once this much of the buffer has been filled, it is emptied after the
/// current chunk, unterminated frame and all.
pub const RESET_BUFFER_SIZE: usize = MAX_BUFFER_SIZE - READ_BUF_SIZE;

/// Fewest bytes before a delimiter that can be a frame: the two bytes of the
/// sequence number and the checksum.
pub const MIN_FRAME_LEN: usize = 3;

/// Marker that opens a free-form text frame.
pub const DEBUG_MARKER: u8 = 0x7E;

/// Plain sum of the bytes of `s`.
pub open spec fn byte_sum(s: Seq<u8>) -> nat
    decreases s.len(),
{
    if s.len() == 0 {
        0
    } else {
        byte_sum(s.drop_last()) + s.last() as nat
    }
}

/// The checksum of a stuffed byte sequence: its sum modulo 256.
pub open spec fn checksum_of(s: Seq<u8>) -> u8 {
    (byte_sum(s) % 256) as u8
}

/// Wire bytes of the unit that starts at `p`: an escape introducer and the
/// byte after it, or one byte.
pub open spec fn unit_len(seg: Seq<u8>, p: int) -> nat {
    if seg[p] == ESCAPE && p + 1 < seg.len() {
        2
    } else {
        1
    }
}

/// Start of the last unit of `seg`, reading unit by unit from `p`.
pub open spec fn last_unit_start(seg: Seq<u8>, p: nat) -> nat
    decreases seg.len() - p,
{
    if p + unit_len(seg, p as int) >= seg.len() {
        p
    } else {
        last_unit_start(seg, p + unit_len(seg, p as int))
    }
}

/// Where the checksum starts in a candidate frame: read from the front, the
/// last unit is the checksum.
pub open spec fn body_end(seg: Seq<u8>) -> nat {
    last_unit_start(seg, 0)
}

/// The checksum value that a candidate frame carries, unstuffed.
pub open spec fn received_checksum(seg: Seq<u8>) -> u8 {
    let q = body_end(seg);
    if unit_len(seg, q as int) == 2 {
        unescape(seg[q + 1int])
    } else {
        seg[q as int]
    }
}

/// The last unit starts at or after `p` and inside `seg`.
pub proof fn lemma_last_unit_bounds(seg: Seq<u8>, p: nat)
    requires
        p < seg.len(),
    ensures
        p <= last_unit_start(seg, p) < seg.len(),
        last_unit_start(seg, p) + unit_len(seg, last_unit_start(seg, p) as int) == seg.len(),
    decreases seg.len() - p,
{
    if p + unit_len(seg, p as int) < seg.len() {
        lemma_last_unit_bounds(seg, p + unit_len(seg, p as int));
    }
}

/// Whether the bytes before the checksum sum to the checksum carried.
pub open spec fn checksum_valid(seg: Seq<u8>) -> bool {
    checksum_of(seg.subrange(0, body_end(seg) as int)) == received_checksum(seg)
}

/// The bytes of `s` from `n` on.
pub open spec fn skip(s: Seq<u8>, n: nat) -> Seq<u8> {
    s.subrange(n as int, s.len() as int)
}

/// Sequence number, message type and, when the body goes on, a part byte of a
/// frame body, each stuffed, and the number of wire bytes they take. A body
/// that ends right after the message type has no part and an empty payload.
pub open spec fn decode_header(body: Seq<u8>) -> Option<(u16, u8, Option<u8>, nat)> {
    match unstuff_first(body) {
        None => None,
        Some((lo, n1)) => match unstuff_first(skip(body, n1)) {
            None => None,
            Some((hi, n2)) => match unstuff_first(skip(body, n1 + n2)) {
                None => None,
                Some((t, n3)) => if skip(body, n1 + n2 + n3).len() == 0 {
                    Some(((lo as int + 256 * hi as int) as u16, t, None, n1 + n2 + n3))
                } else {
                    match unstuff_first(skip(body, n1 + n2 + n3)) {
                        None => None,
                        Some((p, n4)) => Some(
                            ((lo as int + 256 * hi as int) as u16, t, Some(p), n1 + n2 + n3 + n4),
                        ),
                    }
                },
            },
        },
    }
}

/// What one candidate frame turned out to be.
pub enum EventModel {
    Noise,
    Corrupt { len: nat },
    Debug { text: Seq<u8> },
    Malformed,
    Message { seq: u16, msg_type: u8, part: Option<u8>, payload: Seq<u8> },
}

/// Whether a candidate frame opens with the text-frame marker and holds more.
pub open spec fn is_debug_frame(seg: Seq<u8>) -> bool {
    seg.len() > 3 && seg[0] == 0 && seg[1] == 0 && seg[2] == DEBUG_MARKER
}

/// In a text frame the checksum comes after the marker.
pub proof fn lemma_debug_body_end(seg: Seq<u8>)
    requires
        is_debug_frame(seg),
    ensures
        3 <= body_end(seg) < seg.len(),
{
    lemma_last_unit_bounds(seg, 3);
    assert(last_unit_start(seg, 2) == last_unit_start(seg, 3));
    assert(last_unit_start(seg, 1) == last_unit_start(seg, 2));
    assert(last_unit_start(seg, 0) == last_unit_start(seg, 1));
}

/// The meaning of the bytes found before one delimiter.
pub open spec fn event_of(seg: Seq<u8>) -> EventModel {
    if seg.len() < MIN_FRAME_LEN {
        EventModel::Noise
    } else if !checksum_valid(seg) {
        EventModel::Corrupt { len: seg.len() }
    } else if is_debug_frame(seg) {
        EventModel::Debug { text: seg.subrange(3, body_end(seg) as int) }
    } else {
        let body = seg.subrange(0, body_end(seg) as int);
        match decode_header(body) {
            None => EventModel::Malformed,
            Some((seq, t, p, n)) => EventModel::Message {
                seq,
                msg_type: t,
                part: p,
                payload: skip(body, n),
            },
        }
    }
}

/// Cuts `s` at each delimiter: the completed frames, in order, and the bytes
/// after the last delimiter.
pub open spec fn split_frames(s: Seq<u8>) -> (Seq<Seq<u8>>, Seq<u8>)
    decreases s.len(),
{
    if s.len() == 0 {
        (Seq::empty(), Seq::empty())
    } else {
        let (frames, rest) = split_frames(s.drop_last());
        if s.last() == DELIM {
            (frames.push(rest), Seq::empty())
        } else {
            (frames, rest.push(s.last()))
        }
    }
}

/// One candidate frame, decoded.
pub enum FrameEvent {
    /// Too short to be a frame; dropped without notice.
    Noise,
    /// The checksum did not match.
    Corrupt { len: usize },
    /// A free-form text frame, the text as it came on the wire.
    Debug { text: Vec<u8> },
    /// The checksum matched but the body is too short for a sequence number
    /// and a message type, or ends in a lone escape introducer.
    Malformed,
    /// A sequence-numbered frame; the part byte when the body goes on past
    /// the message type, and the payload, still stuffed.
    Message { seq: u16, msg_type: u8, part: Option<u8>, payload: Vec<u8> },
}

impl View for FrameEvent {
    type V = EventModel;

    open spec fn view(&self) -> EventModel {
        match self {
            FrameEvent::Noise => EventModel::Noise,
            FrameEvent::Corrupt { len } => EventModel::Corrupt { len: *len as nat },
            FrameEvent::Debug { text } => EventModel::Debug { text: text@ },
            FrameEvent::Malformed => EventModel::Malformed,
            FrameEvent::Message { seq, msg_type, part, payload } => EventModel::Message {
                seq: *seq,
                msg_type: *msg_type,
                part: *part,
                payload: payload@,
            },
        }
    }
}

/// Checksum of a stuffed byte sequence: the sum of its bytes modulo 256.
pub fn checksum(data: &[u8]) -> (c: u8)
    ensures
        c == checksum_of(data@),
{
    let mut c: u8 = 0;
    let mut i: usize = 0;
    while i < data.len()
        invariant
            i <= data@.len(),
            c == checksum_of(data@.subrange(0, i as int)),
        decreases data@.len() - i,
    {
        proof {
            let pre = data@.subrange(0, i as int);
            let next = data@.subrange(0, i + 1);
            assert(next.drop_last() =~= pre);
            vstd::arithmetic::div_mod::lemma_add_mod_noop(byte_sum(pre) as int, data@[i as int] as int, 256);
            vstd::arithmetic::div_mod::lemma_mod_twice(data@[i as int] as int, 256);
        }
        c = c.wrapping_add(data[i]);
        i = i + 1;
    }
    proof {
        assert(data@.subrange(0, data@.len() as int) =~= data@);
    }
    c
}

/// Result of checking a candidate frame.
pub struct FrameCheck {
    /// Where the checksum starts.
    pub body_end: usize,
    /// Whether the checksum matched.
    pub valid: bool,
}

/// Checks the checksum of the bytes found before a delimiter. The candidate
/// is read from the front, one byte or one escape pair at a time; the last
/// such unit is the checksum, unstuffed before it is compared.
pub fn validate_frame(seg: &[u8]) -> (r: FrameCheck)
    requires
        seg@.len() >= MIN_FRAME_LEN,
    ensures
        r.body_end == body_end(seg@),
        r.valid == checksum_valid(seg@),
{
    let n = seg.len();
    let mut p: usize = 0;
    let mut len: usize = if seg[0] == ESCAPE && 1 < n { 2 } else { 1 };
    while p + len < n
        invariant
            n == seg@.len(),
            p < n,
            len == unit_len(seg@, p as int),
            last_unit_start(seg@, p as nat) == body_end(seg@),
        decreases n - p,
    {
        p = p + len;
        len = if seg[p] == ESCAPE && p + 1 < n { 2 } else { 1 };
    }
    let received: u8 = if len == 2 {
        if seg[p + 1] == ESCAPE { ESCAPE } else { seg[p + 1] & !STUFF_MASK }
    } else {
        seg[p]
    };
    let sum = checksum(vstd::slice::slice_subrange(seg, 0, p));
    FrameCheck { body_end: p, valid: sum == received }
}

/// Decodes the bytes found before one delimiter.
pub fn classify_frame(seg: &[u8]) -> (e: FrameEvent)
    ensures
        e@ == event_of(seg@),
{
    let n = seg.len();
    if n < MIN_FRAME_LEN {
        return FrameEvent::Noise;
    }
    let check = validate_frame(seg);
    if !check.valid {
        return FrameEvent::Corrupt { len: n };
    }
    if n > 3 && seg[0] == 0 && seg[1] == 0 && seg[2] == DEBUG_MARKER {
        proof {
            lemma_debug_body_end(seg@);
        }
        let text = vstd::slice::slice_to_vec(vstd::slice::slice_subrange(seg, 3, check.body_end));
        return FrameEvent::Debug { text };
    }
    proof {
        lemma_last_unit_bounds(seg@, 0);
    }
    let body = vstd::slice::slice_subrange(seg, 0, check.body_end);
    let mut pos: usize = 0;
    let lo = match pop_escaped(vstd::slice::slice_subrange(body, pos, body.len()), &mut pos) {
        Some(b) => b,
        None => return FrameEvent::Malformed,
    };
    let hi = match pop_escaped(vstd::slice::slice_subrange(body, pos, body.len()), &mut pos) {
        Some(b) => b,
        None => return FrameEvent::Malformed,
    };
    let msg_type = match pop_escaped(vstd::slice::slice_subrange(body, pos, body.len()), &mut pos) {
        Some(b) => b,
        None => return FrameEvent::Malformed,
    };
    let part = if pos == body.len() {
        None
    } else {
        match pop_escaped(vstd::slice::slice_subrange(body, pos, body.len()), &mut pos) {
            Some(b) => Some(b),
            None => return FrameEvent::Malformed,
        }
    };
    proof {
        assert(skip(body@, 0) =~= body@);
    }
    let payload = vstd::slice::slice_to_vec(vstd::slice::slice_subrange(body, pos, body.len()));
    let seq: u16 = lo as u16 + (hi as u16) * 256;
    FrameEvent::Message { seq, msg_type, part, payload }
}

/// A stretch without delimiters is all remainder: no frame is completed.
pub proof fn lemma_split_without_delim(s: Seq<u8>)
    requires
        forall|j: int| 0 <= j < s.len() ==> s[j] != DELIM,
    ensures
        split_frames(s) == (Seq::<Seq<u8>>::empty(), s),
    decreases s.len(),
{
    if s.len() > 0 {
        lemma_split_without_delim(s.drop_last());
        assert(s.drop_last().push(s.last()) =~= s);
    } else {
        assert(s =~= Seq::<u8>::empty());
    }
}

/// Whatever came before, the bytes after a delimiter are cut into frames on
/// their own: `split_frames(a + b)` is the frames of `a`, then those of `b`,
/// when `a` ends with a delimiter.
pub proof fn lemma_split_after_delim(a: Seq<u8>, b: Seq<u8>)
    requires
        a.len() > 0,
        a.last() == DELIM,
    ensures
        split_frames(a + b) == (split_frames(a).0 + split_frames(b).0, split_frames(b).1),
    decreases b.len(),
{
    if b.len() == 0 {
        assert(a + b =~= a);
        assert(split_frames(a).1 =~= Seq::<u8>::empty());
        assert(split_frames(a).0 + Seq::<Seq<u8>>::empty() =~= split_frames(a).0);
    } else {
        lemma_split_after_delim(a, b.drop_last());
        assert((a + b).drop_last() =~= a + b.drop_last());
        assert((a + b).last() == b.last());
        let (fa, _) = split_frames(a);
        let (fb, rb) = split_frames(b.drop_last());
        if b.last() == DELIM {
            assert((fa + fb).push(rb) =~= fa + fb.push(rb));
        }
    }
}

/// Recovery after corruption: when a damaged frame `f1`, whatever its bytes,
/// is followed by its delimiter, an intact frame `f2` and a delimiter, the last
/// frame cut from the stream is exactly `f2`, and nothing is left over.
pub proof fn lemma_resync(f1: Seq<u8>, f2: Seq<u8>)
    requires
        forall|j: int| 0 <= j < f2.len() ==> f2[j] != DELIM,
    ensures
        split_frames(f1.push(DELIM) + f2.push(DELIM)).0 == split_frames(f1.push(DELIM)).0.push(f2),
        split_frames(f1.push(DELIM) + f2.push(DELIM)).1 == Seq::<u8>::empty(),
{
    lemma_split_after_delim(f1.push(DELIM), f2.push(DELIM));
    lemma_split_without_delim(f2);
    assert(f2.push(DELIM).drop_last() =~= f2);
    assert(Seq::<Seq<u8>>::empty().push(f2) =~= seq![f2]);
    assert(split_frames(f1.push(DELIM)).0 + seq![f2] =~= split_frames(f1.push(DELIM)).0.push(f2));
}

proof fn lemma_units_follow_escapes(s: Seq<u8>, t: Seq<u8>, p: nat)
    requires
        s.len() == t.len(),
        p < s.len(),
        forall|j: int| 0 <= j < s.len() ==> (s[j] == ESCAPE) == (t[j] == ESCAPE),
    ensures
        last_unit_start(s, p) == last_unit_start(t, p),
    decreases s.len() - p,
{
    assert(unit_len(s, p as int) == unit_len(t, p as int));
    if p + unit_len(s, p as int) < s.len() {
        lemma_units_follow_escapes(s, t, p + unit_len(s, p as int));
    }
}

proof fn lemma_byte_sum_update(s: Seq<u8>, i: int, v: u8)
    requires
        0 <= i < s.len(),
    ensures
        byte_sum(s.update(i, v)) == byte_sum(s) - s[i] + v,
    decreases s.len(),
{
    let u = s.update(i, v);
    if i == s.len() - 1 {
        assert(u.drop_last() =~= s.drop_last());
    } else {
        lemma_byte_sum_update(s.drop_last(), i, v);
        assert(u.drop_last() =~= s.drop_last().update(i, v));
    }
}

/// A frame damaged in one body byte is turned away, provided neither the old
/// nor the new value of that byte is an escape introducer. (Either one can
/// move the checksum's start, and then a damaged frame may pass.)
pub proof fn lemma_one_changed_byte_detected(seg: Seq<u8>, i: int, v: u8)
    requires
        seg.len() >= MIN_FRAME_LEN,
        checksum_valid(seg),
        0 <= i < body_end(seg),
        seg[i] != ESCAPE,
        v != ESCAPE,
        v != seg[i],
    ensures
        !checksum_valid(seg.update(i, v)),
{
    lemma_last_unit_bounds(seg, 0);
    let t = seg.update(i, v);
    assert forall|j: int| 0 <= j < seg.len() implies (seg[j] == ESCAPE) == (t[j] == ESCAPE) by {
        if j == i {
            assert(t[j] == v);
        } else {
            assert(t[j] == seg[j]);
        }
    }
    lemma_units_follow_escapes(seg, t, 0);
    let q = body_end(seg);
    assert(unit_len(seg, q as int) == unit_len(t, q as int));
    if unit_len(seg, q as int) == 2 {
        assert(t[q + 1int] == seg[q + 1int]);
    }
    assert(received_checksum(t) == received_checksum(seg));
    let b = seg.subrange(0, q as int);
    assert(t.subrange(0, q as int) =~= b.update(i, v));
    lemma_byte_sum_update(b, i, v);
    let x = byte_sum(b) as int;
    let y = x - seg[i] + v;
    let d = v - seg[i];
    assert(0 < d < 256 || -256 < d < 0);
    if y % 256 == x % 256 {
        vstd::arithmetic::div_mod::lemma_fundamental_div_mod(x, 256);
        vstd::arithmetic::div_mod::lemma_fundamental_div_mod(y, 256);
        let k = y / 256 - x / 256;
        assert(d == 256 * k);
        assert(false) by (nonlinear_arith)
            requires
                d == 256 * k,
                0 < d < 256 || -256 < d < 0,
        ;
    }
}

/// Receive buffer and cursors of the stream framer.
pub struct Framer {
    buf: Vec<u8>,
    start: usize,
    offset: usize,
}

impl Framer {
    /// The buffer has its full size, the unterminated frame lies between the
    /// two cursors and holds no delimiter.
    pub closed spec fn wf(&self) -> bool {
        &&& self.buf@.len() == MAX_BUFFER_SIZE
        &&& self.offset <= self.start < RESET_BUFFER_SIZE
        &&& forall|j: int| self.offset <= j < self.start ==> self.buf@[j] != DELIM
    }

    /// Bytes received after the last delimiter.
    pub closed spec fn pending(&self) -> Seq<u8> {
        self.buf@.subrange(self.offset as int, self.start as int)
    }

    /// Where the unterminated frame starts in the buffer.
    pub closed spec fn position(&self) -> nat {
        self.offset as nat
    }

    /// An empty framer.
    pub fn new() -> (r: Framer)
        ensures
            r.wf(),
            r.pending() == Seq::<u8>::empty(),
            r.position() == 0,
    {
        let buf: Vec<u8> = vec![0u8; MAX_BUFFER_SIZE];
        let r = Framer { buf, start: 0, offset: 0 };
        proof {
            assert(r.pending() =~= Seq::<u8>::empty());
        }
        r
    }

    /// End of the bytes received so far.
    pub fn start(&self) -> (r: usize)
        requires
            self.wf(),
        ensures
            r == self.position() + self.pending().len(),
    {
        self.start
    }

    /// Start of the unterminated frame.
    pub fn offset(&self) -> (r: usize)
        ensures
            r == self.position(),
    {
        self.offset
    }

    /// Room left for the next read.
    pub fn free_space(&self) -> (r: usize)
        requires
            self.wf(),
        ensures
            r == MAX_BUFFER_SIZE - (self.position() + self.pending().len()),
            r >= MAX_BUFFER_SIZE - RESET_BUFFER_SIZE,
    {
        MAX_BUFFER_SIZE - self.start
    }

    /// Takes one chunk read from the link and returns what each delimiter in it
    /// completed, in order. The bytes after the last delimiter wait for the next
    /// chunk, unless the buffer has filled past its reset mark: then they are
    /// dropped.
    pub fn receive(&mut self, chunk: &[u8]) -> (out: Vec<FrameEvent>)
        requires
            old(self).wf(),
            chunk@.len() <= MAX_BUFFER_SIZE - (old(self).position() + old(self).pending().len()),
        ensures
            final(self).wf(),
            ({
                let data = old(self).pending() + chunk@;
                let (frames, rest) = split_frames(data);
                &&& out@.len() == frames.len()
                &&& forall|k: int| 0 <= k < frames.len() ==> #[trigger] out@[k]@ == event_of(frames[k])
                &&& if rest.len() == 0 || old(self).position() + data.len() >= RESET_BUFFER_SIZE {
                    final(self).pending() == Seq::<u8>::empty() && final(self).position() == 0
                } else {
                    final(self).pending() == rest
                        && final(self).position() == old(self).position() + data.len() - rest.len()
                }
            }),
    {
        let n = chunk.len();
        let start0 = self.start;
        let offset0 = self.offset;
        let ghost data = self.pending() + chunk@;
        let mut j: usize = 0;
        while j < n
            invariant
                start0 + n <= MAX_BUFFER_SIZE,
                n == chunk@.len(),
                j <= n,
                self.buf@.len() == MAX_BUFFER_SIZE,
                self.start == start0,
                self.offset == offset0,
                offset0 <= start0,
                self.buf@.subrange(offset0 as int, start0 + j) == data.subrange(0, start0 - offset0 + j),
                data == old(self).pending() + chunk@,
                old(self).pending().len() == start0 - offset0,
            decreases n - j,
        {
            self.buf.set(start0 + j, chunk[j]);
            proof {
                assert(self.buf@.subrange(offset0 as int, start0 + j + 1) =~= data.subrange(
                    0,
                    start0 - offset0 + j + 1,
                ));
            }
            j = j + 1;
        }
        let end = start0 + n;
        proof {
            assert(data.subrange(0, data.len() as int) =~= data);
            lemma_split_without_delim(old(self).pending());
            assert(self.buf@.subrange(offset0 as int, start0 as int) =~= old(self).pending());
            assert forall|q: int| offset0 <= q < start0 implies self.buf@[q] != DELIM by {
                assert(self.buf@[q] == self.buf@.subrange(offset0 as int, start0 as int)[q - offset0]);
                assert(old(self).pending()[q - offset0] == old(self).buf@[q]);
            }
        }
        let mut out: Vec<FrameEvent> = Vec::new();
        let ghost mut frames: Seq<Seq<u8>> = Seq::empty();
        let mut i: usize = start0;
        while i < end
            invariant
                end == start0 + n,
                end <= MAX_BUFFER_SIZE,
                start0 <= i <= end,
                offset0 <= self.offset <= i,
                self.buf@.len() == MAX_BUFFER_SIZE,
                self.buf@.subrange(offset0 as int, end as int) == data,
                split_frames(self.buf@.subrange(offset0 as int, i as int)) == (
                    frames,
                    self.buf@.subrange(self.offset as int, i as int),
                ),
                out@.len() == frames.len(),
                forall|k: int| 0 <= k < frames.len() ==> #[trigger] out@[k]@ == event_of(frames[k]),
                forall|q: int| self.offset <= q < i ==> self.buf@[q] != DELIM,
            decreases end - i,
        {
            let ghost prev = self.buf@.subrange(offset0 as int, i as int);
            proof {
                let cur = self.buf@.subrange(offset0 as int, i + 1);
                assert(cur.drop_last() =~= prev);
                assert(cur.last() == self.buf@[i as int]);
            }
            if self.buf[i] == DELIM {
                let seg = vstd::slice::slice_subrange(self.buf.as_slice(), self.offset, i);
                let ev = classify_frame(seg);
                proof {
                    frames = frames.push(seg@);
                }
                out.push(ev);
                self.offset = i + 1;
                proof {
                    assert(self.buf@.subrange(self.offset as int, i + 1) =~= Seq::<u8>::empty());
                }
            } else {
                proof {
                    assert(self.buf@.subrange(self.offset as int, i as int).push(self.buf@[i as int])
                        =~= self.buf@.subrange(self.offset as int, i + 1));
                }
            }
            i = i + 1;
        }
        self.start = end;
        if self.offset == self.start || self.start >= RESET_BUFFER_SIZE {
            self.start = 0;
            self.offset = 0;
            proof {
                assert(self.pending() =~= Seq::<u8>::empty());
            }
        }
        proof {
            assert(self.buf@.subrange(offset0 as int, end as int) =~= data);
        }
        out
    }
}

} // verus!
