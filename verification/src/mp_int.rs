//! Writing integers in the smallest MessagePack form the schema files use,
//! and reading them back.
use vstd::prelude::*;

use crate::errors::BrdbSchemaError;
use crate::msgpack::{
    be_bytes, be_nat, lemma_be_bytes, mp_write_i16, mp_write_i32, mp_write_i64, mp_write_nfix,
    mp_write_pfix, mp_write_u16, mp_write_u32, mp_write_u64, mp_write_u8, p256, to_bits, twos,
};
use crate::schema_meta::{err_view, m_bytes, m_int, MetaErr, MParsed};
use crate::msgpack::{mp_read_data_i8, mp_read_data_u16, mp_read_data_u32, mp_read_data_u64, mp_read_data_u8, mp_read_marker};

verus! {

/// The bytes that [`write_int`] writes for `v`: its shortest MessagePack
/// form. A positive fixint below 128 and a negative fixint from -32; else,
/// for a value of 0 or more, the shortest of the 1-, 2-, 4- and 8-byte
/// unsigned forms, and for a negative value the shortest of the 1-, 2-, 4-
/// and 8-byte signed forms.
pub open spec fn int_bytes(v: i64) -> Seq<u8> {
    if v >= 0 {
        uint_bytes(v as u64)
    } else {
        if v >= -32 {
            seq![(v + 256) as u8]
        } else if v >= -128 {
            seq![0xd0u8] + be_bytes(to_bits(v as int, 1), 1)
        } else if v >= -32768 {
            seq![0xd1u8] + be_bytes(to_bits(v as int, 2), 2)
        } else if v >= -2147483648 {
            seq![0xd2u8] + be_bytes(to_bits(v as int, 4), 4)
        } else {
            seq![0xd3u8] + be_bytes(to_bits(v as int, 8), 8)
        }
    }
}

/// The bytes that [`write_uint`] writes for `v`: a fixint where it fits,
/// else the narrowest of a 1-, 2-, 4- or 8-byte unsigned form.
pub open spec fn uint_bytes(v: u64) -> Seq<u8> {
    if v <= 127 {
        seq![v as u8]
    } else if v <= 255 {
        seq![0xccu8] + be_bytes(v as nat, 1)
    } else if v <= 65535 {
        seq![0xcdu8] + be_bytes(v as nat, 2)
    } else if v <= 4294967295 {
        seq![0xceu8] + be_bytes(v as nat, 4)
    } else {
        seq![0xcfu8] + be_bytes(v as nat, 8)
    }
}

/// Appends the shortest MessagePack form of `value` (see [`int_bytes`]).
pub fn write_int(buf: &mut Vec<u8>, value: i64) -> (res: Result<(), BrdbSchemaError>)
    ensures
        res is Ok,
        final(buf)@ == old(buf)@ + int_bytes(value),
{
    if value >= 0 {
        let _ = write_uint(buf, value as u64);
    } else {
        if value >= -32 {
            mp_write_nfix(buf, value as i8);
        } else if value >= -128 {
            crate::msgpack::mp_write_i8(buf, value as i8);
        } else if value >= -32768 {
            mp_write_i16(buf, value as i16);
        } else if value >= -2147483648 {
            mp_write_i32(buf, value as i32);
        } else {
            mp_write_i64(buf, value);
        }
    }
    assert(old(buf)@ + int_bytes(value) =~= buf@);
    Ok(())
}

/// Appends the smallest unsigned MessagePack form of `value` (see
/// [`uint_bytes`]).
pub fn write_uint(buf: &mut Vec<u8>, value: u64) -> (res: Result<(), BrdbSchemaError>)
    ensures
        res is Ok,
        final(buf)@ == old(buf)@ + uint_bytes(value),
{
    if value <= 127 {
        mp_write_pfix(buf, value as u8);
    } else if value <= 255 {
        mp_write_u8(buf, value as u8);
    } else if value <= 65535 {
        mp_write_u16(buf, value as u16);
    } else if value <= 4294967295 {
        mp_write_u32(buf, value as u32);
    } else {
        mp_write_u64(buf, value);
    }
    assert(old(buf)@ + uint_bytes(value) =~= buf@);
    Ok(())
}

/// The bytes that [`write_u8`] writes for `v`: a positive fixint up to 127,
/// a negative fixint for 225 to 255, and otherwise the marker `0xcc` and the
/// low byte of `v`.
pub open spec fn u8_bytes(v: u64) -> Seq<u8> {
    if v <= 127 {
        seq![v as u8]
    } else if 224 < v <= 255 {
        seq![v as u8]
    } else {
        seq![0xccu8] + be_bytes((v % 256) as nat, 1)
    }
}

/// Appends `value` as one byte in the form that readers of unsigned bytes
/// take (see [`u8_bytes`]).
pub fn write_u8(buf: &mut Vec<u8>, value: u64) -> (res: Result<(), BrdbSchemaError>)
    ensures
        res is Ok,
        final(buf)@ == old(buf)@ + u8_bytes(value),
{
    if value <= 127 {
        mp_write_pfix(buf, value as u8);
    } else if value > 224 && value <= 255 {
        let b = (value as i64 - 256) as i8;
        mp_write_nfix(buf, b);
    } else {
        let low = (value % 256) as u8;
        mp_write_u8(buf, low);
    }
    assert(old(buf)@ + u8_bytes(value) =~= buf@);
    Ok(())
}

pub(crate) proof fn lemma_p256_values()
    ensures
        p256(1) == 256,
        p256(2) == 65536,
        p256(4) == 4294967296,
        p256(8) == 18446744073709551616,
{
    reveal_with_fuel(p256, 9);
}

/// Reading a marker and `k` big-endian bytes of `x` (below `256^k`) off the
/// front of `bytes + rest`.
proof fn lemma_read_form(m: u8, x: nat, k: nat, rest: Seq<u8>)
    requires
        x < p256(k),
    ensures
        ({
            let s = seq![m] + be_bytes(x, k) + rest;
            &&& s.len() > 0
            &&& s[0] == m
            &&& m_bytes(s.skip(1), k) == Ok::<(nat, Seq<u8>), crate::schema_meta::MetaErr>((x, rest))
        }),
{
    lemma_be_bytes(x, k);
    let s = seq![m] + be_bytes(x, k) + rest;
    assert(s.skip(1) =~= be_bytes(x, k) + rest);
    assert(s.skip(1).take(k as int) =~= be_bytes(x, k));
    assert(s.skip(1).skip(k as int) =~= rest);
    assert(x % p256(k) == x) by {
        vstd::arithmetic::div_mod::lemma_small_mod(x, p256(k));
    }
}

/// Reading back what [`write_int`] wrote gives the value written, whatever
/// follows it.
pub proof fn lemma_int_roundtrip(v: i64, rest: Seq<u8>)
    ensures
        m_int(int_bytes(v) + rest) == Ok::<(i64, Seq<u8>), crate::schema_meta::MetaErr>((v, rest)),
{
    lemma_p256_values();
    let s = int_bytes(v) + rest;
    if v >= 0 {
        lemma_uint_roundtrip(v as u64, rest);
    } else {
        if v >= -32 {
            assert(s.skip(1) =~= rest);
        } else if v >= -128 {
            lemma_read_form(0xd0, to_bits(v as int, 1), 1, rest);
        } else if v >= -32768 {
            lemma_read_form(0xd1, to_bits(v as int, 2), 2, rest);
        } else if v >= -2147483648 {
            lemma_read_form(0xd2, to_bits(v as int, 4), 4, rest);
        } else {
            lemma_read_form(0xd3, to_bits(v as int, 8), 8, rest);
        }
    }
}

/// Reading back what [`write_uint`] wrote gives the value written (as an
/// `i64`, so a value above `i64::MAX` wraps), whatever follows it.
pub proof fn lemma_uint_roundtrip(v: u64, rest: Seq<u8>)
    ensures
        m_int(uint_bytes(v) + rest) == Ok::<(i64, Seq<u8>), crate::schema_meta::MetaErr>(
            (#[verifier::truncate] (v as i64), rest),
        ),
{
    lemma_p256_values();
    let s = uint_bytes(v) + rest;
    if v <= 127 {
        assert(s.skip(1) =~= rest);
    } else if v <= 255 {
        lemma_read_form(0xcc, v as nat, 1, rest);
    } else if v <= 65535 {
        lemma_read_form(0xcd, v as nat, 2, rest);
    } else if v <= 4294967295 {
        lemma_read_form(0xce, v as nat, 4, rest);
    } else {
        lemma_read_form(0xcf, v as nat, 8, rest);
    }
}

/// A MessagePack unsigned integer as a `u64`: a positive fixint, a 1-, 2-,
/// 4- or 8-byte unsigned form, a 1-byte signed form (wrapped), or a negative
/// fixint taken as its byte, 224 to 255.
pub open spec fn m_uint(s: Seq<u8>) -> MParsed<u64> {
    if s.len() == 0 {
        Err(MetaErr::MarkerRead)
    } else {
        let m = s[0];
        let r = s.skip(1);
        if m <= 0x7f || m >= 0xe0 {
            Ok((m as u64, r))
        } else if m == 0xcc || m == 0xcd || m == 0xce || m == 0xcf {
            let k: nat = if m == 0xcc { 1 } else if m == 0xcd { 2 } else if m == 0xce { 4 } else { 8 };
            match m_bytes(r, k) {
                Ok((v, r2)) => Ok((v as u64, r2)),
                Err(e) => Err(e),
            }
        } else if m == 0xd0 {
            match m_bytes(r, 1) {
                Ok((v, r2)) => Ok((#[verifier::truncate] (twos(v, 1) as u64), r2)),
                Err(e) => Err(e),
            }
        } else {
            Err(MetaErr::Expected("uint"@, "marker"@))
        }
    }
}

/// Reads a MessagePack unsigned integer (see [`m_uint`]).
pub fn read_uint(buf: &mut &[u8]) -> (res: Result<u64, BrdbSchemaError>)
    ensures
        match m_uint(old(buf)@) {
            Ok((v, rest)) => res == Ok::<u64, BrdbSchemaError>(v) && final(buf)@ == rest,
            Err(e) => res matches Err(e2) && err_view(e2) == e,
        },
{
    let m = match mp_read_marker(buf) {
        Some(m) => m,
        None => {
            return Err(BrdbSchemaError::RmpMarkerReadError);
        },
    };
    if m <= 0x7f || m >= 0xe0 {
        Ok(m as u64)
    } else if m == 0xcc {
        match mp_read_data_u8(buf) {
            Some(v) => Ok(v as u64),
            None => Err(BrdbSchemaError::RmpValueReadError),
        }
    } else if m == 0xd0 {
        match mp_read_data_i8(buf) {
            Some(v) => Ok(#[verifier::truncate] (v as u64)),
            None => Err(BrdbSchemaError::RmpValueReadError),
        }
    } else if m == 0xcd {
        match mp_read_data_u16(buf) {
            Some(v) => Ok(v as u64),
            None => Err(BrdbSchemaError::RmpValueReadError),
        }
    } else if m == 0xce {
        match mp_read_data_u32(buf) {
            Some(v) => Ok(v as u64),
            None => Err(BrdbSchemaError::RmpValueReadError),
        }
    } else if m == 0xcf {
        match mp_read_data_u64(buf) {
            Some(v) => Ok(v),
            None => Err(BrdbSchemaError::RmpValueReadError),
        }
    } else {
        Err(BrdbSchemaError::ExpectedType("uint".to_owned(), "marker".to_owned()))
    }
}

/// Reading back as an unsigned integer what [`write_uint`] wrote gives the
/// value written, whatever follows it.
pub proof fn lemma_uint_read_uint(v: u64, rest: Seq<u8>)
    ensures
        m_uint(uint_bytes(v) + rest) == Ok::<(u64, Seq<u8>), MetaErr>((v, rest)),
{
    lemma_p256_values();
    let s = uint_bytes(v) + rest;
    if v <= 127 {
        assert(s.skip(1) =~= rest);
    } else if v <= 255 {
        lemma_read_form(0xcc, v as nat, 1, rest);
    } else if v <= 65535 {
        lemma_read_form(0xcd, v as nat, 2, rest);
    } else if v <= 4294967295 {
        lemma_read_form(0xce, v as nat, 4, rest);
    } else {
        lemma_read_form(0xcf, v as nat, 8, rest);
    }
}

/// Reading back as an unsigned integer what [`write_u8`] wrote for a byte
/// value gives that value, the negative fixints included, whatever follows.
pub proof fn lemma_u8_read_uint(v: u64, rest: Seq<u8>)
    requires
        v <= 255,
    ensures
        m_uint(u8_bytes(v) + rest) == Ok::<(u64, Seq<u8>), MetaErr>((v, rest)),
{
    lemma_p256_values();
    let s = u8_bytes(v) + rest;
    if v <= 127 || v > 224 {
        assert(s.skip(1) =~= rest);
    } else {
        assert(v % 256 == v);
        lemma_read_form(0xcc, (v % 256) as nat, 1, rest);
    }
}

/// A number read from `k` big-endian bytes is below `256^k`.
proof fn lemma_be_nat_bound(s: Seq<u8>)
    ensures
        be_nat(s) < p256(s.len()),
    decreases s.len(),
{
    if s.len() > 0 {
        lemma_be_nat_bound(s.drop_last());
        let a = be_nat(s.drop_last());
        let p = p256(s.drop_last().len());
        assert(a * 256 + s.last() < 256 * p) by (nonlinear_arith)
            requires
                a < p,
                s.last() < 256,
        {}
    }
}

proof fn lemma_int_bytes_len(v: i64)
    ensures
        0 <= v < 128 ==> int_bytes(v).len() == 1,
        -32 <= v < 0 ==> int_bytes(v).len() == 1,
        0 <= v < 256 ==> int_bytes(v).len() <= 2,
        -128 <= v < 256 ==> int_bytes(v).len() <= 2,
        -32768 <= v < 65536 ==> int_bytes(v).len() <= 3,
        -2147483648 <= v < 4294967296 ==> int_bytes(v).len() <= 5,
        int_bytes(v).len() <= 9,
{
    lemma_be_bytes(to_bits(v as int, 1), 1);
    lemma_be_bytes(to_bits(v as int, 2), 2);
    lemma_be_bytes(to_bits(v as int, 4), 4);
    lemma_be_bytes(to_bits(v as int, 8), 8);
    lemma_be_bytes(v as nat, 1);
    lemma_be_bytes(v as nat, 2);
    lemma_be_bytes(v as nat, 4);
    lemma_be_bytes(v as nat, 8);
}

/// [`write_int`] writes no more bytes than any MessagePack integer form that
/// reads back as the same value: its form is the shortest.
pub proof fn lemma_int_bytes_shortest(v: i64, e: Seq<u8>, rest: Seq<u8>)
    requires
        m_int(e + rest) == Ok::<(i64, Seq<u8>), MetaErr>((v, rest)),
    ensures
        int_bytes(v).len() <= e.len(),
{
    lemma_p256_values();
    lemma_int_bytes_len(v);
    let s = e + rest;
    let m = s[0];
    let r = s.skip(1);
    if m <= 0x7f || m >= 0xe0 {
        assert(rest == r);
    } else {
        let k: nat = if m == 0xcc || m == 0xd0 { 1 } else if m == 0xcd || m == 0xd1 { 2 } else if m == 0xce
            || m == 0xd2 { 4 } else { 8 };
        let x = be_nat(r.take(k as int));
        lemma_be_nat_bound(r.take(k as int));
        assert(rest == r.skip(k as int));
        assert(r.take(k as int).len() == k);
    }
}

} // verus!
