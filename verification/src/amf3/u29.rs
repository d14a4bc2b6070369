//! Integers of 29 bits in one to four bytes.
//!
//! Seven bits to a byte, high bits first, with the top bit set while more bytes
//! follow; a fourth byte holds eight bits.

use vstd::prelude::*;
use crate::amf::Failure;
#[allow(unused_imports)]
use crate::amf::failed;
use crate::error::{invalid_amf0, Result};

verus! {

/// The integer at offset `pos`, and where it ends.
#[verifier::opaque]
pub open spec fn u29_at(s: Seq<u8>, pos: int) -> core::result::Result<(u32, int), Failure> {
    if s.len() <= pos {
        Err(failed("amf3 truncated"@, pos))
    } else if s[pos] < 128 {
        Ok((s[pos] as u32, pos + 1))
    } else if s.len() <= pos + 1 {
        Err(failed("amf3 truncated"@, pos + 1))
    } else if s[pos + 1] < 128 {
        Ok(((s[pos] % 128 * 128 + s[pos + 1]) as u32, pos + 2))
    } else if s.len() <= pos + 2 {
        Err(failed("amf3 truncated"@, pos + 2))
    } else if s[pos + 2] < 128 {
        Ok(
            (
                (s[pos] % 128 * 16384 + s[pos + 1] % 128 * 128 + s[pos + 2]) as u32,
                pos + 3,
            ),
        )
    } else if s.len() <= pos + 3 {
        Err(failed("amf3 truncated"@, pos + 3))
    } else {
        Ok(
            (
                (s[pos] % 128 * 4194304 + s[pos + 1] % 128 * 32768 + s[pos + 2] % 128 * 256
                    + s[pos + 3]) as u32,
                pos + 4,
            ),
        )
    }
}

/// The bytes of the low 29 bits of `v`.
#[verifier::opaque]
pub open spec fn u29_bytes(v: u32) -> Seq<u8> {
    let n = v % 0x2000_0000;
    if n < 0x80 {
        seq![n as u8]
    } else if n < 0x4000 {
        seq![(n / 128 + 128) as u8, (n % 128) as u8]
    } else if n < 0x20_0000 {
        seq![(n / 16384 + 128) as u8, (n / 128 % 128 + 128) as u8, (n % 128) as u8]
    } else {
        seq![
            (n / 4194304 + 128) as u8,
            (n / 32768 % 128 + 128) as u8,
            (n / 256 % 128 + 128) as u8,
            (n % 256) as u8,
        ]
    }
}

/// The signed value of 29 bits.
pub open spec fn signed29(v: u32) -> int {
    if v >= 0x1000_0000 {
        v - 0x2000_0000
    } else {
        v as int
    }
}

/// The 29 bits of a signed value.
pub open spec fn bits29(v: i32) -> u32 {
    (v as int % 0x2000_0000) as u32
}

/// Read the integer at `*pos` and move `*pos` behind it, or to where the input
/// ended.
pub fn read_u29(buf: &[u8], pos: &mut usize) -> (r: Result<u32>)
    ensures
        match r {
            Ok(v) => {
                &&& u29_at(buf@, *old(pos) as int) == Ok::<(u32, int), Failure>(
                    (v, *final(pos) as int),
                )
                &&& v < 0x2000_0000
                &&& *old(pos) < *final(pos) <= buf@.len()
            },
            Err(e) => u29_at(buf@, *old(pos) as int) == Err::<(u32, int), Failure>(
                Failure { fault: e@, pos: *final(pos) as int },
            ),
        },
{
    proof {
        reveal(u29_at);
    }
    let n: usize = buf.len();
    let p: usize = *pos;
    if p >= n {
        return Err(invalid_amf0("amf3 truncated"));
    }
    let a: u32 = buf[p] as u32;
    *pos = p + 1;
    if a < 128 {
        return Ok(a);
    }
    if n - p < 2 {
        return Err(invalid_amf0("amf3 truncated"));
    }
    let b: u32 = buf[p + 1] as u32;
    *pos = p + 2;
    if b < 128 {
        return Ok(a % 128 * 128 + b);
    }
    if n - p < 3 {
        return Err(invalid_amf0("amf3 truncated"));
    }
    let c: u32 = buf[p + 2] as u32;
    *pos = p + 3;
    if c < 128 {
        return Ok(a % 128 * 16384 + b % 128 * 128 + c);
    }
    if n - p < 4 {
        return Err(invalid_amf0("amf3 truncated"));
    }
    let d: u32 = buf[p + 3] as u32;
    *pos = p + 4;
    Ok(a % 128 * 4194304 + b % 128 * 32768 + c % 128 * 256 + d)
}

/// The signed value of the 29 bits `v`.
pub(crate) fn sign_extend_29(v: u32) -> (n: i32)
    requires
        v < 0x2000_0000,
    ensures
        n == signed29(v),
{
    if v >= 0x1000_0000 {
        v as i32 - 0x2000_0000
    } else {
        v as i32
    }
}

/// Append the low 29 bits of `v`.
pub fn write_u29(out: &mut Vec<u8>, v: u32)
    ensures
        final(out)@ == old(out)@ + u29_bytes(v),
{
    let n: u32 = v % 0x2000_0000;
    if n < 0x80 {
        out.push(n as u8);
    } else if n < 0x4000 {
        out.push((n / 128 + 128) as u8);
        out.push((n % 128) as u8);
    } else if n < 0x20_0000 {
        out.push((n / 16384 + 128) as u8);
        out.push((n / 128 % 128 + 128) as u8);
        out.push((n % 128) as u8);
    } else {
        out.push((n / 4194304 + 128) as u8);
        out.push((n / 32768 % 128 + 128) as u8);
        out.push((n / 256 % 128 + 128) as u8);
        out.push((n % 256) as u8);
    }
    proof {
        reveal(u29_bytes);
    }
    assert(out@ =~= old(out)@ + u29_bytes(v));
}

/// Append a signed value of 29 bits.
pub(crate) fn write_i29(out: &mut Vec<u8>, v: i32)
    requires
        -0x1000_0000 <= v < 0x1000_0000,
    ensures
        final(out)@ == old(out)@ + u29_bytes(bits29(v)),
{
    if v < 0 {
        write_u29(out, (v + 0x2000_0000) as u32);
    } else {
        write_u29(out, v as u32);
    }
}

proof fn lemma_digits(n: u32)
    requires
        n < 0x2000_0000,
    ensures
        n < 0x4000 ==> n / 128 < 128 && n == n / 128 * 128 + n % 128,
        n < 0x20_0000 ==> n / 16384 < 128 && n == n / 16384 * 16384 + n / 128 % 128 * 128 + n % 128,
        n / 4194304 < 128,
        n == n / 4194304 * 4194304 + n / 32768 % 128 * 32768 + n / 256 % 128 * 256 + n % 256,
{
    let a = n / 256;
    let b = a / 128;
    assert(n / 32768 == b);
    assert(n / 4194304 == b / 128);
    let c = n / 128;
    assert(n / 16384 == c / 128);
}

proof fn lemma_read_four(s: Seq<u8>, p: int, a: u32, b: u32, c: u32, d: u8)
    requires
        0 <= p,
        p + 4 <= s.len(),
        a < 128 && b < 128 && c < 128,
        s[p] == a + 128,
        s[p + 1] == b + 128,
        s[p + 2] == c + 128,
        s[p + 3] == d,
    ensures
        u29_at(s, p) == Ok::<(u32, int), Failure>(
            ((a * 4194304 + b * 32768 + c * 256 + d) as u32, p + 4),
        ),
{
    reveal(u29_at);
}

proof fn lemma_read_three(s: Seq<u8>, p: int, a: u32, b: u32, c: u8)
    requires
        0 <= p,
        p + 3 <= s.len(),
        a < 128 && b < 128 && c < 128,
        s[p] == a + 128,
        s[p + 1] == b + 128,
        s[p + 2] == c,
    ensures
        u29_at(s, p) == Ok::<(u32, int), Failure>(
            ((a * 16384 + b * 128 + c) as u32, p + 3),
        ),
{
    reveal(u29_at);
}

proof fn lemma_read_two(s: Seq<u8>, p: int, a: u32, b: u8)
    requires
        0 <= p,
        p + 2 <= s.len(),
        a < 128 && b < 128,
        s[p] == a + 128,
        s[p + 1] == b,
    ensures
        u29_at(s, p) == Ok::<(u32, int), Failure>(((a * 128 + b) as u32, p + 2)),
{
    reveal(u29_at);
}

proof fn lemma_read_one(s: Seq<u8>, p: int, a: u8)
    requires
        0 <= p < s.len(),
        a < 128,
        s[p] == a,
    ensures
        u29_at(s, p) == Ok::<(u32, int), Failure>((a as u32, p + 1)),
{
    reveal(u29_at);
}

/// An integer reads back as it was written, wherever it stands.
pub proof fn law_u29_round_trip(pre: Seq<u8>, v: u32, post: Seq<u8>)
    requires
        v < 0x2000_0000,
    ensures
        u29_at(pre + u29_bytes(v) + post, pre.len() as int) == Ok::<(u32, int), Failure>(
            (v, (pre.len() + u29_bytes(v).len()) as int),
        ),
{
    let s = pre + u29_bytes(v) + post;
    let p = pre.len() as int;
    lemma_digits(v);
    if v < 0x80 {
        assert(u29_bytes(v) == seq![v as u8]) by {
            reveal(u29_bytes);
        }
        assert(s[p] == v);
        lemma_read_one(s, p, v as u8);
    } else if v < 0x4000 {
        let a = v / 128;
        let b = (v % 128) as u8;
        assert(u29_bytes(v) == seq![(a + 128) as u8, b]) by {
            reveal(u29_bytes);
        }
        assert(s[p] == a + 128 && s[p + 1] == b);
        lemma_read_two(s, p, a, b);
    } else if v < 0x20_0000 {
        let a = v / 16384;
        let b = v / 128 % 128;
        let c = (v % 128) as u8;
        assert(u29_bytes(v) == seq![(a + 128) as u8, (b + 128) as u8, c]) by {
            reveal(u29_bytes);
        }
        assert(s[p] == a + 128 && s[p + 1] == b + 128 && s[p + 2] == c);
        lemma_read_three(s, p, a, b, c);
    } else {
        let a = v / 4194304;
        let b = v / 32768 % 128;
        let c = v / 256 % 128;
        let d = (v % 256) as u8;
        assert(u29_bytes(v) == seq![(a + 128) as u8, (b + 128) as u8, (c + 128) as u8, d]) by {
            reveal(u29_bytes);
        }
        assert(s[p] == a + 128 && s[p + 1] == b + 128 && s[p + 2] == c + 128 && s[p + 3] == d);
        lemma_read_four(s, p, a, b, c, d);
    }
}

/// A signed integer reads back as it was written.
pub proof fn law_i29_round_trip(v: i32)
    requires
        -0x1000_0000 <= v < 0x1000_0000,
    ensures
        bits29(v) < 0x2000_0000,
        signed29(bits29(v)) == v,
{
}

/// An integer takes no more bytes than it needs.
pub proof fn law_u29_length(v: u32)
    requires
        v < 0x2000_0000,
    ensures
        u29_bytes(v).len() == if v < 0x80 {
            1nat
        } else if v < 0x4000 {
            2
        } else if v < 0x20_0000 {
            3
        } else {
            4
        },
{
    reveal(u29_bytes);
}

} // verus!
