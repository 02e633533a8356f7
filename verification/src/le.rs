//! Little-endian encodings of fixed-width integers, and a cursor over a byte
//! slice that hands out fixed-size pieces of it.
use vstd::prelude::*;

verus! {

/// The two bytes of `v`, least significant first.
pub open spec fn u16_le(v: u16) -> Seq<u8> {
    seq![(v % 256) as u8, (v / 256) as u8]
}

/// The four bytes of `v`, least significant first.
pub open spec fn u32_le(v: u32) -> Seq<u8> {
    seq![
        (v % 256) as u8,
        ((v / 256) % 256) as u8,
        ((v / 65536) % 256) as u8,
        (v / 16777216) as u8,
    ]
}

/// The eight bytes of `v`, least significant first.
pub open spec fn u64_le(v: u64) -> Seq<u8> {
    u32_le((v % 4294967296) as u32) + u32_le((v / 4294967296) as u32)
}

/// The two's complement bit pattern of a 16-bit signed value.
pub open spec fn i16_bits(v: i16) -> u16 {
    (if v < 0 { v + 65536 } else { v as int }) as u16
}

/// The two's complement bit pattern of a 32-bit signed value.
pub open spec fn i32_bits(v: i32) -> u32 {
    (if v < 0 { v + 4294967296 } else { v as int }) as u32
}

/// The two's complement bit pattern of a 64-bit signed value.
pub open spec fn i64_bits(v: i64) -> u64 {
    (if v < 0 { v + 18446744073709551616 } else { v as int }) as u64
}

pub open spec fn i8_bits(v: i8) -> u8 {
    (if v < 0 { v + 256 } else { v as int }) as u8
}

/// The signed value whose two's complement bit pattern is `b`.
pub open spec fn i8_of_bits(b: u8) -> i8 {
    (if b < 128 { b as int } else { b - 256 }) as i8
}

pub open spec fn i16_of_bits(b: u16) -> i16 {
    (if b < 32768 { b as int } else { b - 65536 }) as i16
}

pub open spec fn i32_of_bits(b: u32) -> i32 {
    (if b < 2147483648 { b as int } else { b - 4294967296 }) as i32
}

pub open spec fn i64_of_bits(b: u64) -> i64 {
    (if b < 9223372036854775808 { b as int } else { b - 18446744073709551616 }) as i64
}

pub open spec fn i32_le(v: i32) -> Seq<u8> {
    u32_le(i32_bits(v))
}

pub open spec fn i16_le(v: i16) -> Seq<u8> {
    u16_le(i16_bits(v))
}

pub open spec fn i64_le(v: i64) -> Seq<u8> {
    u64_le(i64_bits(v))
}

/// The value of two little-endian bytes.
pub open spec fn u16_from_le(b: Seq<u8>) -> u16 {
    (b[0] + 256 * b[1]) as u16
}

/// The value of four little-endian bytes.
pub open spec fn u32_from_le(b: Seq<u8>) -> u32 {
    (b[0] + 256 * b[1] + 65536 * b[2] + 16777216 * b[3]) as u32
}

/// The value of eight little-endian bytes.
pub open spec fn u64_from_le(b: Seq<u8>) -> u64 {
    (u32_from_le(b.subrange(0, 4)) + 4294967296 * u32_from_le(b.subrange(4, 8))) as u64
}

pub open spec fn i16_from_le(b: Seq<u8>) -> i16 {
    i16_of_bits(u16_from_le(b))
}

pub open spec fn i32_from_le(b: Seq<u8>) -> i32 {
    i32_of_bits(u32_from_le(b))
}

pub open spec fn i64_from_le(b: Seq<u8>) -> i64 {
    i64_of_bits(u64_from_le(b))
}

pub proof fn lemma_u16_le(v: u16)
    ensures
        u16_le(v).len() == 2,
        u16_from_le(u16_le(v)) == v,
{
}

pub proof fn lemma_u16_from_le(b: Seq<u8>)
    requires
        b.len() == 2,
    ensures
        u16_le(u16_from_le(b)) =~= b,
{
}

pub proof fn lemma_u32_le(v: u32)
    ensures
        u32_le(v).len() == 4,
        u32_from_le(u32_le(v)) == v,
{
}

pub proof fn lemma_u32_from_le(b: Seq<u8>)
    requires
        b.len() == 4,
    ensures
        u32_le(u32_from_le(b)) =~= b,
{
    let (b0, b1, b2, b3) = (b[0] as int, b[1] as int, b[2] as int, b[3] as int);
    let v = b0 + 256 * b1 + 65536 * b2 + 16777216 * b3;
    assert(v % 256 == b0 && (v / 256) % 256 == b1 && (v / 65536) % 256 == b2 && v / 16777216
        == b3) by (nonlinear_arith)
        requires
            0 <= b0 < 256,
            0 <= b1 < 256,
            0 <= b2 < 256,
            0 <= b3 < 256,
            v == b0 + 256 * b1 + 65536 * b2 + 16777216 * b3,
    ;
}

pub proof fn lemma_u64_le(v: u64)
    ensures
        u64_le(v).len() == 8,
        u64_from_le(u64_le(v)) == v,
{
    let lo = (v % 4294967296) as u32;
    let hi = (v / 4294967296) as u32;
    lemma_u32_le(lo);
    lemma_u32_le(hi);
    assert(u64_le(v).subrange(0, 4) =~= u32_le(lo));
    assert(u64_le(v).subrange(4, 8) =~= u32_le(hi));
}

pub proof fn lemma_i16_le(v: i16)
    ensures
        i16_le(v).len() == 2,
        i16_from_le(i16_le(v)) == v,
{
    lemma_u16_le(i16_bits(v));
}

pub proof fn lemma_i32_le(v: i32)
    ensures
        i32_le(v).len() == 4,
        i32_from_le(i32_le(v)) == v,
{
    lemma_u32_le(i32_bits(v));
}

pub proof fn lemma_i32_from_le(b: Seq<u8>)
    requires
        b.len() == 4,
    ensures
        i32_le(i32_from_le(b)) =~= b,
{
    lemma_u32_from_le(b);
}

pub proof fn lemma_i64_le(v: i64)
    ensures
        i64_le(v).len() == 8,
        i64_from_le(i64_le(v)) == v,
{
    lemma_u64_le(i64_bits(v));
}

/// Appends the little-endian bytes of `v` to `out`.
pub fn push_u16_le(out: &mut Vec<u8>, v: u16)
    ensures
        final(out)@ == old(out)@ + u16_le(v),
{
    out.push((v % 256) as u8);
    out.push((v / 256) as u8);
    assert(final(out)@ =~= old(out)@ + u16_le(v));
}

/// Appends the little-endian bytes of `v` to `out`.
pub fn push_u32_le(out: &mut Vec<u8>, v: u32)
    ensures
        final(out)@ == old(out)@ + u32_le(v),
{
    out.push((v % 256) as u8);
    out.push(((v / 256) % 256) as u8);
    out.push(((v / 65536) % 256) as u8);
    out.push((v / 16777216) as u8);
    assert(final(out)@ =~= old(out)@ + u32_le(v));
}

/// Appends the little-endian bytes of `v` to `out`.
pub fn push_u64_le(out: &mut Vec<u8>, v: u64)
    ensures
        final(out)@ == old(out)@ + u64_le(v),
{
    push_u32_le(out, (v % 4294967296) as u32);
    push_u32_le(out, (v / 4294967296) as u32);
    assert(final(out)@ =~= old(out)@ + u64_le(v));
}

pub fn i16_to_bits(v: i16) -> (b: u16)
    ensures
        b == i16_bits(v),
{
    if v < 0 {
        (v as i32 + 65536) as u16
    } else {
        v as u16
    }
}

pub fn i32_to_bits(v: i32) -> (b: u32)
    ensures
        b == i32_bits(v),
{
    if v < 0 {
        (v as i64 + 4294967296) as u32
    } else {
        v as u32
    }
}

pub fn i64_to_bits(v: i64) -> (b: u64)
    ensures
        b == i64_bits(v),
{
    if v < 0 {
        (v as i128 + 18446744073709551616) as u64
    } else {
        v as u64
    }
}

pub fn i8_to_bits(v: i8) -> (b: u8)
    ensures
        b == i8_bits(v),
{
    if v < 0 {
        (v as i16 + 256) as u8
    } else {
        v as u8
    }
}

pub fn bits_to_i8(b: u8) -> (v: i8)
    ensures
        v == i8_of_bits(b),
{
    if b < 128 {
        b as i8
    } else {
        (b as i16 - 256) as i8
    }
}

pub fn bits_to_i16(b: u16) -> (v: i16)
    ensures
        v == i16_of_bits(b),
{
    if b < 32768 {
        b as i16
    } else {
        (b as i32 - 65536) as i16
    }
}

pub fn bits_to_i32(b: u32) -> (v: i32)
    ensures
        v == i32_of_bits(b),
{
    if b < 2147483648 {
        b as i32
    } else {
        (b as i64 - 4294967296) as i32
    }
}

pub fn bits_to_i64(b: u64) -> (v: i64)
    ensures
        v == i64_of_bits(b),
{
    if b < 9223372036854775808 {
        b as i64
    } else {
        (b as i128 - 18446744073709551616) as i64
    }
}

pub fn push_i32_le(out: &mut Vec<u8>, v: i32)
    ensures
        final(out)@ == old(out)@ + i32_le(v),
{
    push_u32_le(out, i32_to_bits(v));
}

/// A copy of the bytes of `b`.
pub fn bytes_to_vec(b: &[u8]) -> (v: Vec<u8>)
    ensures
        v@ == b@,
{
    let mut v: Vec<u8> = Vec::new();
    let mut i: usize = 0;
    while i < b.len()
        invariant
            0 <= i <= b@.len(),
            v@ == b@.take(i as int),
        decreases b@.len() - i,
    {
        v.push(b[i]);
        i = i + 1;
        assert(v@ =~= b@.take(i as int));
    }
    assert(b@.take(b@.len() as int) =~= b@);
    v
}

/// Appends the bytes of `b` to `out`.
pub fn extend_bytes(out: &mut Vec<u8>, b: &[u8])
    ensures
        final(out)@ == old(out)@ + b@,
{
    let mut i: usize = 0;
    let ghost base = out@;
    while i < b.len()
        invariant
            0 <= i <= b@.len(),
            out@ == base + b@.take(i as int),
        decreases b@.len() - i,
    {
        out.push(b[i]);
        i = i + 1;
        assert(out@ =~= base + b@.take(i as int));
    }
    assert(b@.take(b@.len() as int) =~= b@);
}

/// Splits the first `n` bytes off the slice that `r` refers to. When fewer
/// than `n` bytes are left, nothing is handed out and `r` is left empty, as
/// reading past the end of a byte slice leaves it.
pub fn take_bytes<'a>(r: &mut &'a [u8], n: usize) -> (res: Option<&'a [u8]>)
    ensures
        n <= old(r)@.len() ==> (res matches Some(b) && b@ == old(r)@.take(n as int)
            && final(r)@ == old(r)@.skip(n as int)),
        n > old(r)@.len() ==> res is None && final(r)@.len() == 0,
{
    let s: &'a [u8] = *r;
    if n > s.len() {
        let (_, empty) = s.split_at(s.len());
        *r = empty;
        return None;
    }
    let (a, b) = s.split_at(n);
    *r = b;
    Some(a)
}

/// The value of the first two bytes of `b`, little-endian.
pub fn u16_of_le(b: &[u8]) -> (v: u16)
    requires
        b@.len() >= 2,
    ensures
        v == u16_from_le(b@),
{
    (b[0] as u16) + 256 * (b[1] as u16)
}

/// The value of the first four bytes of `b`, little-endian.
pub fn u32_of_le(b: &[u8]) -> (v: u32)
    requires
        b@.len() >= 4,
    ensures
        v == u32_from_le(b@),
{
    (b[0] as u32) + 256 * (b[1] as u32) + 65536 * (b[2] as u32) + 16777216 * (b[3] as u32)
}

/// The value of the first eight bytes of `b`, little-endian.
pub fn u64_of_le(b: &[u8]) -> (v: u64)
    requires
        b@.len() >= 8,
    ensures
        v == u64_from_le(b@),
{
    let lo = (b[0] as u64) + 256 * (b[1] as u64) + 65536 * (b[2] as u64) + 16777216 * (b[3] as u64);
    let hi = (b[4] as u64) + 256 * (b[5] as u64) + 65536 * (b[6] as u64) + 16777216 * (b[7] as u64);
    assert(lo == u32_from_le(b@.subrange(0, 4)));
    assert(hi == u32_from_le(b@.subrange(4, 8)));
    lo + 4294967296 * hi
}

} // verus!
