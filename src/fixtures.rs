//! Hand-crafted inputs for the framer: a printable digit run whose checksum is
//! a letter or digit, and a binary frame whose checksum can be chosen.

use vstd::prelude::*;
use crate::codec::{DELIM, stuff, stuff_all, push_escaped, push_all_escaped};
use crate::framer::{byte_sum, checksum_of, checksum};
use crate::session::synthetic_body;

verus! {

/// ASCII `'0'`.
pub const ASCII_ZERO: u8 = 0x30;

/// An ASCII letter or digit.
pub open spec fn is_alnum(c: u8) -> bool {
    (48 <= c <= 57) || (65 <= c <= 90) || (97 <= c <= 122)
}

/// The checksum `c` after `j` more `'0'` characters.
pub open spec fn pad_by(c: u8, j: u8) -> u8 {
    ((c as u32 + 48u32 * j as u32) % 256) as u8
}

/// Adding `'0'` characters reaches a letter or digit within sixteen steps:
/// the steps run through all sixteen values of the residue class modulo 16,
/// and each class holds a digit or one of `J` to `O`.
proof fn lemma_padding_reaches_alnum(c: u8)
    ensures
        is_alnum(pad_by(c, 0)) || is_alnum(pad_by(c, 1)) || is_alnum(pad_by(c, 2)) || is_alnum(
            pad_by(c, 3),
        ) || is_alnum(pad_by(c, 4)) || is_alnum(pad_by(c, 5)) || is_alnum(pad_by(c, 6))
            || is_alnum(pad_by(c, 7)) || is_alnum(pad_by(c, 8)) || is_alnum(pad_by(c, 9))
            || is_alnum(pad_by(c, 10)) || is_alnum(pad_by(c, 11)) || is_alnum(pad_by(c, 12))
            || is_alnum(pad_by(c, 13)) || is_alnum(pad_by(c, 14)) || is_alnum(pad_by(c, 15)),
{
    assert(is_alnum(((c as u32 + 0) % 256) as u8) || is_alnum(((c as u32 + 48) % 256) as u8)
        || is_alnum(((c as u32 + 96) % 256) as u8) || is_alnum(((c as u32 + 144) % 256) as u8)
        || is_alnum(((c as u32 + 192) % 256) as u8) || is_alnum(((c as u32 + 240) % 256) as u8)
        || is_alnum(((c as u32 + 288) % 256) as u8) || is_alnum(((c as u32 + 336) % 256) as u8)
        || is_alnum(((c as u32 + 384) % 256) as u8) || is_alnum(((c as u32 + 432) % 256) as u8)
        || is_alnum(((c as u32 + 480) % 256) as u8) || is_alnum(((c as u32 + 528) % 256) as u8)
        || is_alnum(((c as u32 + 576) % 256) as u8) || is_alnum(((c as u32 + 624) % 256) as u8)
        || is_alnum(((c as u32 + 672) % 256) as u8) || is_alnum(((c as u32 + 720) % 256) as u8))
        by (bit_vector);
}

/// The digit run: the last digit of each of `1`, `2`, ... up to `count`.
pub open spec fn digit_run(count: nat) -> Seq<u8> {
    Seq::new(count, |k: int| (48 + (k + 1) % 10) as u8)
}

/// `count` copies of `b`.
pub open spec fn repeat(b: u8, count: nat) -> Seq<u8> {
    Seq::new(count, |k: int| b)
}

proof fn lemma_byte_sum_push(s: Seq<u8>, b: u8)
    ensures
        byte_sum(s.push(b)) == byte_sum(s) + b,
{
    assert(s.push(b).drop_last() =~= s);
}

proof fn lemma_checksum_push(s: Seq<u8>, b: u8)
    ensures
        checksum_of(s.push(b)) as int == (checksum_of(s) as int + b as int) % 256,
{
    lemma_byte_sum_push(s, b);
    vstd::arithmetic::div_mod::lemma_add_mod_noop(byte_sum(s) as int, b as int, 256);
    vstd::arithmetic::div_mod::lemma_mod_twice(b as int, 256);
}

proof fn lemma_padded_checksum(s: Seq<u8>, j: nat)
    requires
        j < 256,
    ensures
        checksum_of(s + repeat(ASCII_ZERO, j)) == pad_by(checksum_of(s), j as u8),
    decreases j,
{
    if j == 0 {
        assert(s + repeat(ASCII_ZERO, 0) =~= s);
    } else {
        lemma_padded_checksum(s, (j - 1) as nat);
        assert(s + repeat(ASCII_ZERO, j) =~= (s + repeat(ASCII_ZERO, (j - 1) as nat)).push(ASCII_ZERO));
        lemma_checksum_push(s + repeat(ASCII_ZERO, (j - 1) as nat), ASCII_ZERO);
        let c = checksum_of(s) as int;
        vstd::arithmetic::div_mod::lemma_add_mod_noop(c + 48 * (j - 1), 48, 256);
        vstd::arithmetic::div_mod::lemma_mod_twice(48, 256);
    }
}

/// A printable test line: the digit run for `1` up to `length - 1`, then as
/// many `'0'` as it takes, and no more, for the checksum of all that to be a
/// letter or digit, then that checksum as a character.
pub fn generate(length: usize) -> (r: Vec<u8>)
    ensures
        ({
            let digits = digit_run(if length > 0 { (length - 1) as nat } else { 0 });
            let z = (r@.len() - digits.len() - 1) as nat;
            &&& r@.len() >= digits.len() + 1
            &&& r@ == digits + repeat(ASCII_ZERO, z) + seq![checksum_of(digits + repeat(ASCII_ZERO, z))]
            &&& is_alnum(r@.last())
            &&& forall|j: nat| j < z ==> !is_alnum(#[trigger] checksum_of(digits + repeat(ASCII_ZERO, j)))
        }),
{
    let mut out: Vec<u8> = Vec::new();
    let mut i: usize = 1;
    let count: usize = if length > 0 { length - 1 } else { 0 };
    while i < length
        invariant
            1 <= i,
            count == if length > 0 { (length - 1) as nat } else { 0 },
            i <= length || (length == 0 && i == 1),
            out@ == digit_run((i - 1) as nat),
        decreases length - i,
    {
        out.push((48 + i % 10) as u8);
        proof {
            assert(out@ =~= digit_run(i as nat));
        }
        i = i + 1;
    }
    let ghost digits = out@;
    proof {
        assert(digits =~= digit_run(count as nat));
    }
    let mut csum = checksum(out.as_slice());
    let ghost c0 = csum;
    let mut k: u8 = 0;
    proof {
        lemma_padding_reaches_alnum(c0);
        assert(digits + repeat(ASCII_ZERO, 0) =~= digits);
        assert(pad_by(c0, 0) == c0);
    }
    while !(48 <= csum && csum <= 57 || 65 <= csum && csum <= 90 || 97 <= csum && csum <= 122)
        invariant
            k < 16,
            csum == pad_by(c0, k),
            c0 == checksum_of(digits),
            out@ == digits + repeat(ASCII_ZERO, k as nat),
            forall|j: u8| j < k ==> !is_alnum(#[trigger] pad_by(c0, j)),
            is_alnum(pad_by(c0, 0)) || is_alnum(pad_by(c0, 1)) || is_alnum(pad_by(c0, 2)) || is_alnum(
                pad_by(c0, 3),
            ) || is_alnum(pad_by(c0, 4)) || is_alnum(pad_by(c0, 5)) || is_alnum(pad_by(c0, 6))
                || is_alnum(pad_by(c0, 7)) || is_alnum(pad_by(c0, 8)) || is_alnum(pad_by(c0, 9))
                || is_alnum(pad_by(c0, 10)) || is_alnum(pad_by(c0, 11)) || is_alnum(pad_by(c0, 12))
                || is_alnum(pad_by(c0, 13)) || is_alnum(pad_by(c0, 14)) || is_alnum(pad_by(c0, 15)),
        decreases 16 - k,
    {
        proof {
            if k == 15 {
                assert(!is_alnum(pad_by(c0, 14)));
                assert(false);
            }
        }
        out.push(ASCII_ZERO);
        proof {
            assert(out@ =~= digits + repeat(ASCII_ZERO, (k + 1) as nat));
            vstd::arithmetic::div_mod::lemma_add_mod_noop(c0 as int + 48 * k, 48, 256);
            vstd::arithmetic::div_mod::lemma_mod_twice(48, 256);
        }
        csum = csum.wrapping_add(ASCII_ZERO);
        k = k + 1;
    }
    proof {
        lemma_padded_checksum(digits, k as nat);
        assert forall|j: nat| j < k implies !is_alnum(#[trigger] checksum_of(digits + repeat(ASCII_ZERO, j))) by {
            lemma_padded_checksum(digits, j);
            assert(!is_alnum(pad_by(c0, j as u8)));
        }
    }
    out.push(csum);
    out
}

/// The body of a binary test frame: sequence number one written high byte
/// first, then the synthetic payload of `length` counting bytes.
pub open spec fn bin_body(length: nat) -> Seq<u8> {
    seq![0u8, 1u8] + synthetic_body(length)
}

/// How many bytes of value one it takes to bring checksum `c` to `target`.
pub open spec fn pad_to(c: u8, target: Option<u8>) -> nat {
    match target {
        None => 0,
        Some(t) => ((t as int - c as int + 256) % 256) as nat,
    }
}

/// A binary test frame: the stuffed body, bytes of value one until the
/// checksum is `target` when one is given, the stuffed checksum and the
/// delimiter.
pub fn generate_bin(length: usize, target: Option<u8>) -> (r: Vec<u8>)
    ensures
        ({
            let body = stuff_all(bin_body(length as nat));
            let pre = body + repeat(1u8, pad_to(checksum_of(body), target));
            &&& r@ == pre + stuff(checksum_of(pre)) + seq![DELIM]
            &&& target matches Some(t) ==> checksum_of(pre) == t
        }),
{
    let mut plain: Vec<u8> = vec![0u8, 1u8];
    let payload = crate::session::synthetic_payload(length);
    let mut j: usize = 0;
    while j < payload.len()
        invariant
            j <= payload@.len(),
            plain@ == seq![0u8, 1u8] + payload@.subrange(0, j as int),
        decreases payload@.len() - j,
    {
        plain.push(payload[j]);
        proof {
            assert(plain@ =~= seq![0u8, 1u8] + payload@.subrange(0, j + 1));
        }
        j = j + 1;
    }
    proof {
        assert(payload@.subrange(0, payload@.len() as int) =~= payload@);
    }
    let mut wbuf: Vec<u8> = Vec::new();
    push_all_escaped(&mut wbuf, plain.as_slice());
    let ghost body = wbuf@;
    proof {
        assert(body =~= stuff_all(bin_body(length as nat)));
    }
    let mut csum = checksum(wbuf.as_slice());
    let ghost c0 = csum;
    let ghost mut k: nat = 0;
    proof {
        assert(body + repeat(1u8, 0) =~= body);
    }
    match target {
        Some(t) => {
            while csum != t
                invariant
                    wbuf@ == body + repeat(1u8, k),
                    csum == checksum_of(wbuf@),
                    k + (t as int - csum as int + 256) % 256 == (t as int - c0 as int + 256) % 256,
                decreases (t as int - csum as int + 256) % 256,
            {
                let ghost before = wbuf@;
                proof {
                    lemma_checksum_push(before, 1u8);
                }
                push_escaped(&mut wbuf, 1u8);
                proof {
                    assert(wbuf@ =~= before.push(1u8));
                    assert(wbuf@ =~= body + repeat(1u8, k + 1));
                    k = k + 1;
                }
                csum = csum.wrapping_add(1);
            }
        },
        None => {},
    }
    let ghost pre = wbuf@;
    push_escaped(&mut wbuf, csum);
    wbuf.push(DELIM);
    proof {
        assert(k == pad_to(c0, target));
    }
    wbuf
}

} // verus!
