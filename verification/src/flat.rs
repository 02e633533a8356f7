//! Flat values: fixed-width integers stored little-endian, and strings of a
//! given byte length, as they lie in memory dumps of world data.
use vstd::prelude::*;
use vstd::utf8::{decode_utf8, valid_utf8};

use crate::codec::string_from_utf8;
use crate::errors::BrdbSchemaError;
use crate::le::{
    bits_to_i16, bits_to_i32, bits_to_i64, bits_to_i8, bytes_to_vec, i16_from_le, i16_le,
    i16_to_bits, i32_from_le, i32_le, i32_to_bits, i64_from_le, i64_le, i64_to_bits, i8_bits,
    i8_of_bits, i8_to_bits, lemma_i16_le, lemma_i32_le, lemma_i64_le, lemma_u16_le, lemma_u32_le,
    lemma_u64_le, push_u16_le, push_u32_le, push_u64_le, take_bytes, u16_from_le, u16_le,
    u16_of_le, u32_from_le, u32_le, u32_of_le, u64_from_le, u64_le, u64_of_le,
};

verus! {

/// The first `n` bytes of `s` and the rest, where `s` has `n` bytes.
pub open spec fn flat_split(s: Seq<u8>, n: nat) -> Option<(Seq<u8>, Seq<u8>)> {
    if s.len() < n {
        None
    } else {
        Some((s.take(n as int), s.skip(n as int)))
    }
}

/// What a flat read of `n` bytes decoded by `f` gives: the value and the
/// rest, or the error for input that ends too soon.
pub open spec fn flat_read<T>(s: Seq<u8>, n: nat, f: spec_fn(Seq<u8>) -> T) -> Result<(T, Seq<u8>), BrdbSchemaError> {
    match flat_split(s, n) {
        Some((b, rest)) => Ok((f(b), rest)),
        None => Err(BrdbSchemaError::UnexpectedEof),
    }
}

/// Reads one byte.
pub fn read_flat_u8(buf: &mut &[u8]) -> (res: Result<u8, BrdbSchemaError>)
    ensures
        match flat_read(old(buf)@, 1, |b: Seq<u8>| b[0]) {
            Ok((v, rest)) => res == Ok::<u8, BrdbSchemaError>(v) && final(buf)@ == rest,
            Err(e) => res == Err::<u8, BrdbSchemaError>(e),
        },
{
    match take_bytes(buf, 1) {
        Some(b) => Ok(b[0]),
        None => Err(BrdbSchemaError::UnexpectedEof),
    }
}

/// Reads a little-endian `u16`.
pub fn read_flat_u16(buf: &mut &[u8]) -> (res: Result<u16, BrdbSchemaError>)
    ensures
        match flat_read(old(buf)@, 2, |b: Seq<u8>| u16_from_le(b)) {
            Ok((v, rest)) => res == Ok::<u16, BrdbSchemaError>(v) && final(buf)@ == rest,
            Err(e) => res == Err::<u16, BrdbSchemaError>(e),
        },
{
    match take_bytes(buf, 2) {
        Some(b) => Ok(u16_of_le(b)),
        None => Err(BrdbSchemaError::UnexpectedEof),
    }
}

/// Reads a little-endian `u32`.
pub fn read_flat_u32(buf: &mut &[u8]) -> (res: Result<u32, BrdbSchemaError>)
    ensures
        match flat_read(old(buf)@, 4, |b: Seq<u8>| u32_from_le(b)) {
            Ok((v, rest)) => res == Ok::<u32, BrdbSchemaError>(v) && final(buf)@ == rest,
            Err(e) => res == Err::<u32, BrdbSchemaError>(e),
        },
{
    match take_bytes(buf, 4) {
        Some(b) => Ok(u32_of_le(b)),
        None => Err(BrdbSchemaError::UnexpectedEof),
    }
}

/// Reads a little-endian `u64`.
pub fn read_flat_u64(buf: &mut &[u8]) -> (res: Result<u64, BrdbSchemaError>)
    ensures
        match flat_read(old(buf)@, 8, |b: Seq<u8>| u64_from_le(b)) {
            Ok((v, rest)) => res == Ok::<u64, BrdbSchemaError>(v) && final(buf)@ == rest,
            Err(e) => res == Err::<u64, BrdbSchemaError>(e),
        },
{
    match take_bytes(buf, 8) {
        Some(b) => Ok(u64_of_le(b)),
        None => Err(BrdbSchemaError::UnexpectedEof),
    }
}

/// Reads one byte as a two's complement `i8`.
pub fn read_flat_i8(buf: &mut &[u8]) -> (res: Result<i8, BrdbSchemaError>)
    ensures
        match flat_read(old(buf)@, 1, |b: Seq<u8>| i8_of_bits(b[0])) {
            Ok((v, rest)) => res == Ok::<i8, BrdbSchemaError>(v) && final(buf)@ == rest,
            Err(e) => res == Err::<i8, BrdbSchemaError>(e),
        },
{
    match take_bytes(buf, 1) {
        Some(b) => Ok(bits_to_i8(b[0])),
        None => Err(BrdbSchemaError::UnexpectedEof),
    }
}

/// Reads a little-endian `i16`.
pub fn read_flat_i16(buf: &mut &[u8]) -> (res: Result<i16, BrdbSchemaError>)
    ensures
        match flat_read(old(buf)@, 2, |b: Seq<u8>| i16_from_le(b)) {
            Ok((v, rest)) => res == Ok::<i16, BrdbSchemaError>(v) && final(buf)@ == rest,
            Err(e) => res == Err::<i16, BrdbSchemaError>(e),
        },
{
    match take_bytes(buf, 2) {
        Some(b) => Ok(bits_to_i16(u16_of_le(b))),
        None => Err(BrdbSchemaError::UnexpectedEof),
    }
}

/// Reads a little-endian `i32`.
pub fn read_flat_i32(buf: &mut &[u8]) -> (res: Result<i32, BrdbSchemaError>)
    ensures
        match flat_read(old(buf)@, 4, |b: Seq<u8>| i32_from_le(b)) {
            Ok((v, rest)) => res == Ok::<i32, BrdbSchemaError>(v) && final(buf)@ == rest,
            Err(e) => res == Err::<i32, BrdbSchemaError>(e),
        },
{
    match take_bytes(buf, 4) {
        Some(b) => Ok(bits_to_i32(u32_of_le(b))),
        None => Err(BrdbSchemaError::UnexpectedEof),
    }
}

/// Reads a little-endian `i64`.
pub fn read_flat_i64(buf: &mut &[u8]) -> (res: Result<i64, BrdbSchemaError>)
    ensures
        match flat_read(old(buf)@, 8, |b: Seq<u8>| i64_from_le(b)) {
            Ok((v, rest)) => res == Ok::<i64, BrdbSchemaError>(v) && final(buf)@ == rest,
            Err(e) => res == Err::<i64, BrdbSchemaError>(e),
        },
{
    match take_bytes(buf, 8) {
        Some(b) => Ok(bits_to_i64(u64_of_le(b))),
        None => Err(BrdbSchemaError::UnexpectedEof),
    }
}

/// Writes one byte.
pub fn write_flat_u8(buf: &mut Vec<u8>, value: u8) -> (res: Result<(), BrdbSchemaError>)
    ensures
        res is Ok,
        final(buf)@ == old(buf)@.push(value),
{
    buf.push(value);
    Ok(())
}

/// Writes a little-endian `u16`.
pub fn write_flat_u16(buf: &mut Vec<u8>, value: u16) -> (res: Result<(), BrdbSchemaError>)
    ensures
        res is Ok,
        final(buf)@ == old(buf)@ + u16_le(value),
{
    push_u16_le(buf, value);
    Ok(())
}

/// Writes a little-endian `u32`.
pub fn write_flat_u32(buf: &mut Vec<u8>, value: u32) -> (res: Result<(), BrdbSchemaError>)
    ensures
        res is Ok,
        final(buf)@ == old(buf)@ + u32_le(value),
{
    push_u32_le(buf, value);
    Ok(())
}

/// Writes a little-endian `u64`.
pub fn write_flat_u64(buf: &mut Vec<u8>, value: u64) -> (res: Result<(), BrdbSchemaError>)
    ensures
        res is Ok,
        final(buf)@ == old(buf)@ + u64_le(value),
{
    push_u64_le(buf, value);
    Ok(())
}

/// Writes an `i8` as its two's complement byte.
pub fn write_flat_i8(buf: &mut Vec<u8>, value: i8) -> (res: Result<(), BrdbSchemaError>)
    ensures
        res is Ok,
        final(buf)@ == old(buf)@.push(i8_bits(value)),
{
    buf.push(i8_to_bits(value));
    Ok(())
}

/// Writes a little-endian `i16`.
pub fn write_flat_i16(buf: &mut Vec<u8>, value: i16) -> (res: Result<(), BrdbSchemaError>)
    ensures
        res is Ok,
        final(buf)@ == old(buf)@ + i16_le(value),
{
    push_u16_le(buf, i16_to_bits(value));
    Ok(())
}

/// Writes a little-endian `i32`.
pub fn write_flat_i32(buf: &mut Vec<u8>, value: i32) -> (res: Result<(), BrdbSchemaError>)
    ensures
        res is Ok,
        final(buf)@ == old(buf)@ + i32_le(value),
{
    push_u32_le(buf, i32_to_bits(value));
    Ok(())
}

/// Writes a little-endian `i64`.
pub fn write_flat_i64(buf: &mut Vec<u8>, value: i64) -> (res: Result<(), BrdbSchemaError>)
    ensures
        res is Ok,
        final(buf)@ == old(buf)@ + i64_le(value),
{
    push_u64_le(buf, i64_to_bits(value));
    Ok(())
}

/// Reads `len` bytes as a UTF-8 string.
pub fn read_str_from_len(bytes: &mut &[u8], len: usize) -> (res: Result<String, BrdbSchemaError>)
    ensures
        old(bytes)@.len() < len ==> res == Err::<String, BrdbSchemaError>(BrdbSchemaError::UnexpectedEof),
        old(bytes)@.len() >= len ==> {
            let b = old(bytes)@.take(len as int);
            &&& final(bytes)@ == old(bytes)@.skip(len as int)
            &&& valid_utf8(b) ==> (res matches Ok(s) && s@ == decode_utf8(b))
            &&& !valid_utf8(b) ==> res == Err::<String, BrdbSchemaError>(BrdbSchemaError::InvalidUtf8)
        },
{
    match take_bytes(bytes, len) {
        Some(b) => match string_from_utf8(bytes_to_vec(b)) {
            Some(s) => Ok(s),
            None => Err(BrdbSchemaError::InvalidUtf8),
        },
        None => Err(BrdbSchemaError::UnexpectedEof),
    }
}

/// Reading back what a flat write wrote gives the value written, whatever
/// follows it, for each width and signedness.
pub proof fn lemma_flat_roundtrip(
    rest: Seq<u8>,
    a: u8,
    b: u16,
    c: u32,
    d: u64,
    e: i8,
    f: i16,
    g: i32,
    h: i64,
)
    ensures
        flat_read(seq![a] + rest, 1, |s: Seq<u8>| s[0]) == Ok::<(u8, Seq<u8>), BrdbSchemaError>((a, rest)),
        flat_read(u16_le(b) + rest, 2, |s: Seq<u8>| u16_from_le(s)) == Ok::<(u16, Seq<u8>), BrdbSchemaError>((b, rest)),
        flat_read(u32_le(c) + rest, 4, |s: Seq<u8>| u32_from_le(s)) == Ok::<(u32, Seq<u8>), BrdbSchemaError>((c, rest)),
        flat_read(u64_le(d) + rest, 8, |s: Seq<u8>| u64_from_le(s)) == Ok::<(u64, Seq<u8>), BrdbSchemaError>((d, rest)),
        flat_read(seq![i8_bits(e)] + rest, 1, |s: Seq<u8>| i8_of_bits(s[0])) == Ok::<(i8, Seq<u8>), BrdbSchemaError>((e, rest)),
        flat_read(i16_le(f) + rest, 2, |s: Seq<u8>| i16_from_le(s)) == Ok::<(i16, Seq<u8>), BrdbSchemaError>((f, rest)),
        flat_read(i32_le(g) + rest, 4, |s: Seq<u8>| i32_from_le(s)) == Ok::<(i32, Seq<u8>), BrdbSchemaError>((g, rest)),
        flat_read(i64_le(h) + rest, 8, |s: Seq<u8>| i64_from_le(s)) == Ok::<(i64, Seq<u8>), BrdbSchemaError>((h, rest)),
{
    lemma_u16_le(b);
    lemma_u32_le(c);
    lemma_u64_le(d);
    lemma_i16_le(f);
    lemma_i32_le(g);
    lemma_i64_le(h);
    assert((seq![a] + rest).take(1) =~= seq![a]);
    assert((seq![a] + rest).skip(1) =~= rest);
    assert((seq![i8_bits(e)] + rest).take(1) =~= seq![i8_bits(e)]);
    assert((seq![i8_bits(e)] + rest).skip(1) =~= rest);
    assert((u16_le(b) + rest).take(2) =~= u16_le(b));
    assert((u16_le(b) + rest).skip(2) =~= rest);
    assert((u32_le(c) + rest).take(4) =~= u32_le(c));
    assert((u32_le(c) + rest).skip(4) =~= rest);
    assert((u64_le(d) + rest).take(8) =~= u64_le(d));
    assert((u64_le(d) + rest).skip(8) =~= rest);
    assert((i16_le(f) + rest).take(2) =~= i16_le(f));
    assert((i16_le(f) + rest).skip(2) =~= rest);
    assert((i32_le(g) + rest).take(4) =~= i32_le(g));
    assert((i32_le(g) + rest).skip(4) =~= rest);
    assert((i64_le(h) + rest).take(8) =~= i64_le(h));
    assert((i64_le(h) + rest).skip(8) =~= rest);
    assert(i8_of_bits(i8_bits(e)) == e);
}

} // verus!
