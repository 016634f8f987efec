//! Byte stuffing: the delimiter and the escape introducer never appear raw
//! inside a stuffed payload.

use vstd::prelude::*;

verus! {

/// Terminates a frame on the wire.
pub const DELIM: u8 = 0x04;

/// Introduces an escaped byte.
pub const ESCAPE: u8 = 0x1b;

/// Or-ed into an escaped delimiter, masked off again when unstuffing.
pub const STUFF_MASK: u8 = 0x30;

/// The wire form of one byte.
pub open spec fn stuff(b: u8) -> Seq<u8> {
    if b == DELIM {
        seq![ESCAPE, b | STUFF_MASK]
    } else if b == ESCAPE {
        seq![ESCAPE, ESCAPE]
    } else {
        seq![b]
    }
}

/// The wire form of a byte sequence: each byte stuffed in turn.
pub open spec fn stuff_all(s: Seq<u8>) -> Seq<u8>
    decreases s.len(),
{
    if s.len() == 0 {
        Seq::empty()
    } else {
        stuff_all(s.drop_last()) + stuff(s.last())
    }
}

/// The byte that an escape introducer followed by `b` stands for.
pub open spec fn unescape(b: u8) -> u8 {
    if b == ESCAPE {
        ESCAPE
    } else {
        b & !STUFF_MASK
    }
}

/// The first byte that `s` encodes and the number of wire bytes it takes;
/// `None` when `s` is empty or holds only an escape introducer.
pub open spec fn unstuff_first(s: Seq<u8>) -> Option<(u8, nat)> {
    if s.len() == 0 {
        None
    } else if s[0] == ESCAPE {
        if s.len() == 1 {
            None
        } else {
            Some((unescape(s[1]), 2nat))
        }
    } else {
        Some((s[0], 1nat))
    }
}

/// Decodes bytes from the front of `s` until the rest is empty or a lone
/// escape introducer.
pub open spec fn unstuff_all(s: Seq<u8>) -> Seq<u8>
    decreases s.len(),
{
    match unstuff_first(s) {
        None => Seq::empty(),
        Some((b, n)) => seq![b] + unstuff_all(s.subrange(n as int, s.len() as int)),
    }
}

/// Appends the wire form of `b` to `buf`.
pub fn push_escaped(buf: &mut Vec<u8>, b: u8)
    ensures
        final(buf)@ == old(buf)@ + stuff(b),
{
    if b == DELIM {
        buf.push(ESCAPE);
        buf.push(b | STUFF_MASK);
    } else if b == ESCAPE {
        buf.push(ESCAPE);
        buf.push(b);
    } else {
        buf.push(b);
    }
}

/// Appends the wire form of every byte of `data` to `buf`.
pub fn push_all_escaped(buf: &mut Vec<u8>, data: &[u8])
    ensures
        final(buf)@ == old(buf)@ + stuff_all(data@),
{
    let ghost start = buf@;
    let mut i: usize = 0;
    while i < data.len()
        invariant
            i <= data@.len(),
            buf@ == start + stuff_all(data@.subrange(0, i as int)),
        decreases data@.len() - i,
    {
        proof {
            let next = data@.subrange(0, i + 1);
            assert(next.drop_last() =~= data@.subrange(0, i as int));
        }
        push_escaped(buf, data[i]);
        proof {
            assert(start + stuff_all(data@.subrange(0, i as int)) + stuff(data@[i as int])
                =~= start + stuff_all(data@.subrange(0, i + 1)));
        }
        i = i + 1;
    }
    proof {
        assert(data@.subrange(0, data@.len() as int) =~= data@);
    }
}

/// Decodes one byte from the front of `buf` and advances `offset` by the
/// wire bytes it took; `None`, with `offset` unchanged, when `buf` is empty
/// or holds only an escape introducer.
pub fn pop_escaped(buf: &[u8], offset: &mut usize) -> (r: Option<u8>)
    requires
        *old(offset) + buf@.len() <= usize::MAX,
    ensures
        match unstuff_first(buf@) {
            None => r is None && *final(offset) == *old(offset),
            Some((b, n)) => r == Some(b) && *final(offset) == *old(offset) + n,
        },
{
    if buf.len() == 0 {
        return None;
    }
    if buf[0] == ESCAPE {
        if buf.len() == 1 {
            None
        } else {
            *offset += 2;
            if buf[1] == ESCAPE {
                Some(ESCAPE)
            } else {
                Some(buf[1] & !STUFF_MASK)
            }
        }
    } else {
        *offset += 1;
        Some(buf[0])
    }
}

/// Decodes a whole stuffed sequence; a trailing lone escape introducer is
/// dropped.
pub fn pop_all_escaped(buf: &[u8]) -> (out: Vec<u8>)
    ensures
        out@ == unstuff_all(buf@),
{
    let mut offset: usize = 0;
    let mut out: Vec<u8> = Vec::with_capacity(buf.len());
    proof {
        assert(buf@.subrange(0, buf@.len() as int) =~= buf@);
        assert(out@ + unstuff_all(buf@) =~= unstuff_all(buf@));
    }
    loop
        invariant
            offset <= buf@.len(),
            out@ + unstuff_all(buf@.subrange(offset as int, buf@.len() as int)) == unstuff_all(buf@),
        decreases buf@.len() - offset,
    {
        let rest = vstd::slice::slice_subrange(buf, offset, buf.len());
        let ghost before = offset;
        match pop_escaped(rest, &mut offset) {
            Some(b) => {
                proof {
                    let tail = buf@.subrange(before as int, buf@.len() as int);
                    assert(tail.subrange((offset - before) as int, tail.len() as int)
                        =~= buf@.subrange(offset as int, buf@.len() as int));
                    assert(out@.push(b) + unstuff_all(buf@.subrange(offset as int, buf@.len() as int))
                        =~= out@ + unstuff_all(tail));
                }
                out.push(b);
            },
            None => {
                proof {
                    let tail = buf@.subrange(before as int, buf@.len() as int);
                    assert(out@ + unstuff_all(tail) =~= out@);
                }
                return out;
            },
        }
    }
}

/// Takes one decoded byte off the end of `buf`. A last byte other than the
/// escape introducer is returned as it stands; an escape introducer at the end
/// takes the byte before it too, and decodes that one.
pub fn pop_escaped_back(buf: &mut Vec<u8>) -> (r: Option<u8>)
    ensures
        old(buf)@.len() == 0 ==> r is None && final(buf)@ == old(buf)@,
        old(buf)@.len() > 0 && old(buf)@.last() != ESCAPE ==> r == Some(old(buf)@.last())
            && final(buf)@ == old(buf)@.drop_last(),
        old(buf)@.len() == 1 && old(buf)@.last() == ESCAPE ==> r is None && final(buf)@.len() == 0,
        old(buf)@.len() > 1 && old(buf)@.last() == ESCAPE ==> r == Some(
            unescape(old(buf)@[old(buf)@.len() - 2]),
        ) && final(buf)@ == old(buf)@.subrange(0, old(buf)@.len() - 2),
{
    match buf.pop() {
        None => None,
        Some(b) => {
            if b == ESCAPE {
                match buf.pop() {
                    Some(c) => {
                        if c == ESCAPE {
                            Some(ESCAPE)
                        } else {
                            Some(c & !STUFF_MASK)
                        }
                    },
                    None => None,
                }
            } else {
                Some(b)
            }
        },
    }
}

/// Stuffing keeps lengths additive: the wire form of a concatenation is the
/// concatenation of the wire forms.
pub proof fn lemma_stuff_all_append(a: Seq<u8>, b: Seq<u8>)
    ensures
        stuff_all(a + b) == stuff_all(a) + stuff_all(b),
    decreases b.len(),
{
    if b.len() == 0 {
        assert(a + b =~= a);
        assert(stuff_all(a) + stuff_all(b) =~= stuff_all(a));
    } else {
        lemma_stuff_all_append(a, b.drop_last());
        assert((a + b).drop_last() =~= a + b.drop_last());
        assert(stuff_all(a) + stuff_all(b.drop_last()) + stuff(b.last())
            =~= stuff_all(a) + stuff_all(b));
    }
}

/// The wire form of a single byte.
pub proof fn lemma_stuff_all_single(b: u8)
    ensures
        stuff_all(seq![b]) == stuff(b),
{
    assert(seq![b].drop_last() =~= Seq::<u8>::empty());
    assert(stuff_all(Seq::<u8>::empty()) == Seq::<u8>::empty());
    assert(Seq::<u8>::empty() + stuff(b) =~= stuff(b));
}

proof fn lemma_unstuff_stuff_one(b: u8, rest: Seq<u8>)
    ensures
        unstuff_all(stuff(b) + rest) == seq![b] + unstuff_all(rest),
{
    let w = stuff(b) + rest;
    let n = stuff(b).len();
    assert(w.subrange(n as int, w.len() as int) =~= rest);
    if b == DELIM {
        assert((DELIM | STUFF_MASK) & !STUFF_MASK == DELIM) by (bit_vector);
        assert(DELIM | STUFF_MASK != ESCAPE) by (bit_vector);
    }
}

/// Unstuffing undoes stuffing, for every byte sequence.
pub proof fn lemma_round_trip(s: Seq<u8>)
    ensures
        unstuff_all(stuff_all(s)) == s,
    decreases s.len(),
{
    if s.len() > 0 {
        let first = s[0];
        let rest = s.subrange(1, s.len() as int);
        assert(s =~= seq![first] + rest);
        lemma_stuff_all_append(seq![first], rest);
        lemma_stuff_all_single(first);
        lemma_unstuff_stuff_one(first, stuff_all(rest));
        lemma_round_trip(rest);
        assert(seq![first] + rest =~= s);
    } else {
        assert(stuff_all(s) =~= Seq::<u8>::empty());
    }
}

/// The wire form of any payload holds no delimiter byte.
pub proof fn lemma_stuffed_has_no_delim(s: Seq<u8>)
    ensures
        forall|i: int| 0 <= i < stuff_all(s).len() ==> stuff_all(s)[i] != DELIM,
    decreases s.len(),
{
    if s.len() > 0 {
        lemma_stuffed_has_no_delim(s.drop_last());
        assert(DELIM | STUFF_MASK != DELIM) by (bit_vector);
        let head = stuff_all(s.drop_last());
        let tail = stuff(s.last());
        assert(stuff_all(s) == head + tail);
        assert forall|i: int| 0 <= i < stuff_all(s).len() implies stuff_all(s)[i] != DELIM by {
            if i >= head.len() {
                assert(stuff_all(s)[i] == tail[i - head.len()]);
            } else {
                assert(stuff_all(s)[i] == head[i]);
            }
        }
    }
}

} // verus!
