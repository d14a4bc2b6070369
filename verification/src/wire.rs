//! Fixed-width integers on the wire.
//!
//! Each width has a spec reading it out of a byte sequence, a spec writing it,
//! and the executable pair; the `lemma_*` functions say that a read gives back
//! what a write wrote.

use vstd::prelude::*;
use vstd::slice::slice_subrange;

verus! {

/// Big-endian 16-bit value at offset `i`.
#[verifier::opaque]
pub open spec fn be16(s: Seq<u8>, i: int) -> u16 {
    (s[i] * 256 + s[i + 1]) as u16
}

/// Big-endian 24-bit value at offset `i`.
#[verifier::opaque]
pub open spec fn be24(s: Seq<u8>, i: int) -> u32 {
    (s[i] * 65536 + s[i + 1] * 256 + s[i + 2]) as u32
}

/// Big-endian 32-bit value at offset `i`.
#[verifier::opaque]
pub open spec fn be32(s: Seq<u8>, i: int) -> u32 {
    (s[i] * 16777216 + s[i + 1] * 65536 + s[i + 2] * 256 + s[i + 3]) as u32
}

/// Little-endian 32-bit value at offset `i`.
#[verifier::opaque]
pub open spec fn le32(s: Seq<u8>, i: int) -> u32 {
    (s[i + 3] * 16777216 + s[i + 2] * 65536 + s[i + 1] * 256 + s[i]) as u32
}

/// Big-endian 64-bit value at offset `i`.
#[verifier::opaque]
pub open spec fn be64(s: Seq<u8>, i: int) -> u64 {
    (be32(s, i) * 0x1_0000_0000 + be32(s, i + 4)) as u64
}

/// The two bytes of `v`, big-endian.
pub open spec fn be16_bytes(v: u16) -> Seq<u8> {
    seq![(v / 256) as u8, (v % 256) as u8]
}

/// The low 24 bits of `v`, big-endian.
pub open spec fn be24_bytes(v: u32) -> Seq<u8> {
    seq![(v / 65536 % 256) as u8, (v / 256 % 256) as u8, (v % 256) as u8]
}

/// The four bytes of `v`, big-endian.
pub open spec fn be32_bytes(v: u32) -> Seq<u8> {
    seq![
        (v / 16777216) as u8,
        (v / 65536 % 256) as u8,
        (v / 256 % 256) as u8,
        (v % 256) as u8,
    ]
}

/// The four bytes of `v`, little-endian.
pub open spec fn le32_bytes(v: u32) -> Seq<u8> {
    seq![
        (v % 256) as u8,
        (v / 256 % 256) as u8,
        (v / 65536 % 256) as u8,
        (v / 16777216) as u8,
    ]
}

/// The eight bytes of `v`, big-endian.
pub open spec fn be64_bytes(v: u64) -> Seq<u8> {
    be32_bytes((v / 0x1_0000_0000) as u32) + be32_bytes((v % 0x1_0000_0000) as u32)
}

/// The part of `s` from `i` on.
pub open spec fn from(s: Seq<u8>, i: int) -> Seq<u8> {
    s.subrange(i, s.len() as int)
}

/// A field read past a prefix is the field at the shifted offset.
pub proof fn lemma_from_fields(s: Seq<u8>, p: int, i: int)
    requires
        0 <= p,
        0 <= i,
    ensures
        p + i + 2 <= s.len() ==> be16(from(s, p), i) == be16(s, p + i),
        p + i + 3 <= s.len() ==> be24(from(s, p), i) == be24(s, p + i),
        p + i + 4 <= s.len() ==> be32(from(s, p), i) == be32(s, p + i) && le32(from(s, p), i)
            == le32(s, p + i),
{
    reveal(be16);
    reveal(be24);
    reveal(be32);
    reveal(le32);
}

/// Reading a 16-bit field gives back the value that was written.
pub proof fn lemma_be16(s: Seq<u8>, i: int, v: u16)
    requires
        0 <= i,
        i + 2 <= s.len(),
        s.subrange(i, i + 2) == be16_bytes(v),
    ensures
        be16(s, i) == v,
{
    reveal(be16);
    let w = s.subrange(i, i + 2);
    assert(w[0] == s[i] && w[1] == s[i + 1]);
}

/// Reading a 24-bit field gives back the value that was written, modulo 2^24.
pub proof fn lemma_be24(s: Seq<u8>, i: int, v: u32)
    requires
        0 <= i,
        i + 3 <= s.len(),
        s.subrange(i, i + 3) == be24_bytes(v),
    ensures
        be24(s, i) == v % 0x100_0000,
{
    reveal(be24);
    let w = s.subrange(i, i + 3);
    assert(w[0] == s[i] && w[1] == s[i + 1] && w[2] == s[i + 2]);
}

/// Writing a 24-bit field that was read gives back its bytes.
pub proof fn lemma_be24_exact(s: Seq<u8>, i: int)
    requires
        0 <= i,
        i + 3 <= s.len(),
    ensures
        be24(s, i) < 0x100_0000,
        be24_bytes(be24(s, i)) == s.subrange(i, i + 3),
{
    reveal(be24);
    let v = be24(s, i);
    assert(v / 65536 % 256 == s[i] as u32);
    assert(v / 256 % 256 == s[i + 1] as u32);
    assert(v % 256 == s[i + 2] as u32);
    assert(be24_bytes(v) =~= s.subrange(i, i + 3));
}

/// Reading a 32-bit field gives back the value that was written.
pub proof fn lemma_be32(s: Seq<u8>, i: int, v: u32)
    requires
        0 <= i,
        i + 4 <= s.len(),
        s.subrange(i, i + 4) == be32_bytes(v),
    ensures
        be32(s, i) == v,
{
    reveal(be32);
    let w = s.subrange(i, i + 4);
    assert(w[0] == s[i] && w[1] == s[i + 1] && w[2] == s[i + 2] && w[3] == s[i + 3]);
}

/// Writing what was read gives back the bytes.
pub proof fn lemma_be32_exact(s: Seq<u8>, i: int)
    requires
        0 <= i,
        i + 4 <= s.len(),
    ensures
        be32_bytes(be32(s, i)) == s.subrange(i, i + 4),
{
    reveal(be32);
    let v = be32(s, i);
    lemma_four_digits(s[i], s[i + 1], s[i + 2], s[i + 3], v);
    let w = be32_bytes(v);
    assert(w[0] == s[i] && w[1] == s[i + 1] && w[2] == s[i + 2] && w[3] == s[i + 3]);
    assert(w =~= s.subrange(i, i + 4));
}

proof fn lemma_four_digits(a: u8, b: u8, c: u8, d: u8, v: u32)
    requires
        v == a * 16777216 + b * 65536 + c * 256 + d,
    ensures
        v / 16777216 == a,
        v / 65536 % 256 == b,
        v / 256 % 256 == c,
        v % 256 == d,
{
    assert(v / 256 == a * 65536 + b * 256 + c);
    assert(v / 65536 == a * 256 + b);
}

/// Reading a little-endian 32-bit field gives back the value that was written.
pub proof fn lemma_le32(s: Seq<u8>, i: int, v: u32)
    requires
        0 <= i,
        i + 4 <= s.len(),
        s.subrange(i, i + 4) == le32_bytes(v),
    ensures
        le32(s, i) == v,
{
    reveal(le32);
    let w = s.subrange(i, i + 4);
    assert(w[0] == s[i] && w[1] == s[i + 1] && w[2] == s[i + 2] && w[3] == s[i + 3]);
}

/// Reading a 64-bit field gives back the value that was written.
pub proof fn lemma_be64(s: Seq<u8>, i: int, v: u64)
    requires
        0 <= i,
        i + 8 <= s.len(),
        s.subrange(i, i + 8) == be64_bytes(v),
    ensures
        be64(s, i) == v,
{
    reveal(be64);
    let w = s.subrange(i, i + 8);
    assert(s.subrange(i, i + 4) =~= w.subrange(0, 4));
    assert(s.subrange(i + 4, i + 8) =~= w.subrange(4, 8));
    assert(w.subrange(0, 4) =~= be32_bytes((v / 0x1_0000_0000) as u32));
    assert(w.subrange(4, 8) =~= be32_bytes((v % 0x1_0000_0000) as u32));
    lemma_be32(s, i, (v / 0x1_0000_0000) as u32);
    lemma_be32(s, i + 4, (v % 0x1_0000_0000) as u32);
}

/// Big-endian 16-bit value at offset `i`.
pub fn get_be16(s: &[u8], i: usize) -> (v: u16)
    requires
        i + 2 <= s@.len(),
    ensures
        v == be16(s@, i as int),
{
    proof {
        reveal(be16);
    }
    s[i] as u16 * 256 + s[i + 1] as u16
}

/// Big-endian 24-bit value at offset `i`.
pub fn get_be24(s: &[u8], i: usize) -> (v: u32)
    requires
        i + 3 <= s@.len(),
    ensures
        v == be24(s@, i as int),
        v < 0x100_0000,
{
    proof {
        reveal(be24);
    }
    s[i] as u32 * 65536 + s[i + 1] as u32 * 256 + s[i + 2] as u32
}

/// Big-endian 32-bit value at offset `i`.
pub fn get_be32(s: &[u8], i: usize) -> (v: u32)
    requires
        i + 4 <= s@.len(),
    ensures
        v == be32(s@, i as int),
{
    proof {
        reveal(be32);
    }
    s[i] as u32 * 16777216 + s[i + 1] as u32 * 65536 + s[i + 2] as u32 * 256 + s[i + 3] as u32
}

/// Little-endian 32-bit value at offset `i`.
pub fn get_le32(s: &[u8], i: usize) -> (v: u32)
    requires
        i + 4 <= s@.len(),
    ensures
        v == le32(s@, i as int),
{
    proof {
        reveal(le32);
    }
    s[i] as u32 + s[i + 1] as u32 * 256 + s[i + 2] as u32 * 65536 + s[i + 3] as u32 * 16777216
}

/// Big-endian 64-bit value at offset `i`.
pub fn get_be64(s: &[u8], i: usize) -> (v: u64)
    requires
        i + 8 <= s@.len(),
    ensures
        v == be64(s@, i as int),
{
    proof {
        reveal(be64);
    }
    assert(s.len() == s@.len());
    get_be32(s, i) as u64 * 0x1_0000_0000 + get_be32(s, i + 4) as u64
}

/// Append the two bytes of `v`, big-endian.
pub fn put_be16(out: &mut Vec<u8>, v: u16)
    ensures
        final(out)@ == old(out)@ + be16_bytes(v),
{
    out.push((v / 256) as u8);
    out.push((v % 256) as u8);
    assert(out@ =~= old(out)@ + be16_bytes(v));
}

/// Append the low 24 bits of `v`, big-endian.
pub fn put_be24(out: &mut Vec<u8>, v: u32)
    ensures
        final(out)@ == old(out)@ + be24_bytes(v),
{
    out.push((v / 65536 % 256) as u8);
    out.push((v / 256 % 256) as u8);
    out.push((v % 256) as u8);
    assert(out@ =~= old(out)@ + be24_bytes(v));
}

/// Append the four bytes of `v`, big-endian.
pub fn put_be32(out: &mut Vec<u8>, v: u32)
    ensures
        final(out)@ == old(out)@ + be32_bytes(v),
{
    out.push((v / 16777216) as u8);
    out.push((v / 65536 % 256) as u8);
    out.push((v / 256 % 256) as u8);
    out.push((v % 256) as u8);
    assert(out@ =~= old(out)@ + be32_bytes(v));
}

/// Append the four bytes of `v`, little-endian.
pub fn put_le32(out: &mut Vec<u8>, v: u32)
    ensures
        final(out)@ == old(out)@ + le32_bytes(v),
{
    out.push((v % 256) as u8);
    out.push((v / 256 % 256) as u8);
    out.push((v / 65536 % 256) as u8);
    out.push((v / 16777216) as u8);
    assert(out@ =~= old(out)@ + le32_bytes(v));
}

/// Append the eight bytes of `v`, big-endian.
pub fn put_be64(out: &mut Vec<u8>, v: u64)
    ensures
        final(out)@ == old(out)@ + be64_bytes(v),
{
    put_be32(out, (v / 0x1_0000_0000) as u32);
    put_be32(out, (v % 0x1_0000_0000) as u32);
    assert(out@ =~= old(out)@ + be64_bytes(v));
}

/// Append a run of bytes.
pub fn put_bytes(out: &mut Vec<u8>, bytes: &[u8])
    ensures
        final(out)@ == old(out)@ + bytes@,
{
    out.extend_from_slice(bytes);
    assert(out@ =~= old(out)@ + bytes@);
}

/// A copy of `s[i..j]`.
pub fn copy_range(s: &[u8], i: usize, j: usize) -> (v: Vec<u8>)
    requires
        i <= j <= s@.len(),
    ensures
        v@ == s@.subrange(i as int, j as int),
{
    vstd::slice::slice_to_vec(slice_subrange(s, i, j))
}

/// A field that is read has its most significant byte first, except where it is
/// little-endian.
pub proof fn law_fields_by_their_bytes(s: Seq<u8>, i: int)
    requires
        0 <= i,
    ensures
        i + 2 <= s.len() ==> be16(s, i) == s[i] * 0x100 + s[i + 1],
        i + 3 <= s.len() ==> be24(s, i) == s[i] * 0x1_0000 + s[i + 1] * 0x100 + s[i + 2],
        i + 4 <= s.len() ==> be32(s, i) == s[i] * 0x100_0000 + s[i + 1] * 0x1_0000 + s[i + 2]
            * 0x100 + s[i + 3],
        i + 4 <= s.len() ==> le32(s, i) == s[i] + s[i + 1] * 0x100 + s[i + 2] * 0x1_0000 + s[i
            + 3] * 0x100_0000,
        i + 8 <= s.len() ==> be64(s, i) == s[i] * 0x100_0000_0000_0000 + s[i + 1]
            * 0x1_0000_0000_0000 + s[i + 2] * 0x100_0000_0000 + s[i + 3] * 0x1_0000_0000 + s[i + 4]
            * 0x100_0000 + s[i + 5] * 0x1_0000 + s[i + 6] * 0x100 + s[i + 7],
{
    reveal(be16);
    reveal(be24);
    reveal(be32);
    reveal(le32);
    reveal(be64);
}

/// A field that is written has its most significant byte first, except where it is
/// little-endian, and a 24-bit field keeps the low bits.
pub proof fn law_bytes_by_their_value(a: u16, b: u32, c: u64)
    ensures
        be16_bytes(a).len() == 2,
        a == be16_bytes(a)[0] * 0x100 + be16_bytes(a)[1],
        be24_bytes(b).len() == 3,
        b % 0x100_0000 == be24_bytes(b)[0] * 0x1_0000 + be24_bytes(b)[1] * 0x100 + be24_bytes(b)[2],
        be32_bytes(b).len() == 4,
        b == be32_bytes(b)[0] * 0x100_0000 + be32_bytes(b)[1] * 0x1_0000 + be32_bytes(b)[2] * 0x100
            + be32_bytes(b)[3],
        le32_bytes(b).len() == 4,
        b == le32_bytes(b)[0] + le32_bytes(b)[1] * 0x100 + le32_bytes(b)[2] * 0x1_0000
            + le32_bytes(b)[3] * 0x100_0000,
        be64_bytes(c).len() == 8,
        c == be64_bytes(c)[0] * 0x100_0000_0000_0000 + be64_bytes(c)[1] * 0x1_0000_0000_0000
            + be64_bytes(c)[2] * 0x100_0000_0000 + be64_bytes(c)[3] * 0x1_0000_0000 + be64_bytes(
            c,
        )[4] * 0x100_0000 + be64_bytes(c)[5] * 0x1_0000 + be64_bytes(c)[6] * 0x100 + be64_bytes(
            c,
        )[7],
{
    let hi = (c / 0x1_0000_0000) as u32;
    let lo = (c % 0x1_0000_0000) as u32;
    let h = be32_bytes(hi);
    let l = be32_bytes(lo);
    let w = be64_bytes(c);
    assert(w[0] == h[0] && w[1] == h[1] && w[2] == h[2] && w[3] == h[3]);
    assert(w[4] == l[0] && w[5] == l[1] && w[6] == l[2] && w[7] == l[3]);
    assert(hi == h[0] * 0x100_0000 + h[1] * 0x1_0000 + h[2] * 0x100 + h[3]);
    assert(lo == l[0] * 0x100_0000 + l[1] * 0x1_0000 + l[2] * 0x100 + l[3]);
}

/// Fields are read from where they stand: most significant byte first, except for the one
/// that is little-endian.
pub proof fn law_fields_are_read(
    s: &[u8],
    i: usize,
    j: usize,
    a: u16,
    b: u32,
    c: u32,
    d: u32,
    e: u64,
    v: Vec<u8>,
)
    requires
        i + 8 <= s@.len(),
        i <= j <= s@.len(),
        call_ensures(get_be16, (s, i), a),
        call_ensures(get_be24, (s, i), b),
        call_ensures(get_be32, (s, i), c),
        call_ensures(get_le32, (s, i), d),
        call_ensures(get_be64, (s, i), e),
        call_ensures(copy_range, (s, i, j), v),
    ensures
        a == s@[i as int] * 0x100 + s@[i + 1],
        b == a * 0x100 + s@[i + 2],
        c == b * 0x100 + s@[i + 3],
        d == s@[i as int] + s@[i + 1] * 0x100 + s@[i + 2] * 0x1_0000 + s@[i + 3] * 0x100_0000,
        e == c * 0x1_0000_0000 + s@[i + 4] * 0x100_0000 + s@[i + 5] * 0x1_0000 + s@[i + 6] * 0x100
            + s@[i + 7],
        v@.len() == j - i,
        forall|k: int| 0 <= k < j - i ==> v@[k] == s@[i + k],
{
    law_fields_by_their_bytes(s@, i as int);
}

/// Fields are written behind what is there.
pub proof fn law_fields_are_written(
    x: u16,
    y: u32,
    z: u64,
    s: &[u8],
    a: &mut Vec<u8>,
    b: &mut Vec<u8>,
    c: &mut Vec<u8>,
    d: &mut Vec<u8>,
    e: &mut Vec<u8>,
    f: &mut Vec<u8>,
)
    requires
        call_ensures(put_be16, (a, x), ()),
        call_ensures(put_be24, (b, y), ()),
        call_ensures(put_be32, (c, y), ()),
        call_ensures(put_le32, (d, y), ()),
        call_ensures(put_be64, (e, z), ()),
        call_ensures(put_bytes, (f, s), ()),
    ensures
        final(a)@ == old(a)@ + be16_bytes(x),
        final(b)@ == old(b)@ + be24_bytes(y),
        final(c)@ == old(c)@ + be32_bytes(y),
        final(d)@ == old(d)@ + le32_bytes(y),
        final(e)@ == old(e)@ + be64_bytes(z),
        final(f)@ == old(f)@ + s@,
{
}

} // verus!
