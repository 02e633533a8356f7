//! The MessagePack encodings that the schema files use, as parsers over
//! bytes, and the calls into the `rmp` crate that read and write them.
use vstd::prelude::*;
use vstd::utf8::encode_utf8;

verus! {

/// The unsigned big-endian number that the bytes `s` hold.
pub open spec fn be_nat(s: Seq<u8>) -> nat
    decreases s.len(),
{
    if s.len() == 0 {
        0
    } else {
        (be_nat(s.drop_last()) * 256 + s.last()) as nat
    }
}

/// 256 to the power `k`.
pub open spec fn p256(k: nat) -> nat
    decreases k,
{
    if k == 0 {
        1
    } else {
        256 * p256((k - 1) as nat)
    }
}

/// The signed number with the `k`-byte two's complement pattern `v`.
pub open spec fn twos(v: nat, k: nat) -> int {
    if 2 * v >= p256(k) {
        v - p256(k)
    } else {
        v as int
    }
}

/// The `k`-byte two's complement pattern of `v`.
pub open spec fn to_bits(v: int, k: nat) -> nat {
    if v < 0 {
        (v + p256(k)) as nat
    } else {
        v as nat
    }
}

/// The `k` big-endian bytes of `v` (the low `k` bytes where it is larger).
pub open spec fn be_bytes(v: nat, k: nat) -> Seq<u8>
    decreases k,
{
    if k == 0 {
        seq![]
    } else {
        be_bytes(v / 256, (k - 1) as nat).push((v % 256) as u8)
    }
}

/// Writing `k` big-endian bytes and reading them back gives the number
/// modulo `256^k`.
pub proof fn lemma_be_bytes(v: nat, k: nat)
    ensures
        be_bytes(v, k).len() == k,
        be_nat(be_bytes(v, k)) == v % p256(k),
    decreases k,
{
    if k > 0 {
        let q = v / 256;
        let r = v % 256;
        let pk = p256((k - 1) as nat);
        lemma_be_bytes(q, (k - 1) as nat);
        let bs = be_bytes(v, k);
        assert(bs.drop_last() =~= be_bytes(q, (k - 1) as nat));
        let b = q % pk;
        let a = q / pk;
        assert(pk >= 1) by {
            lemma_p256_pos((k - 1) as nat);
        }
        vstd::arithmetic::div_mod::lemma_fundamental_div_mod(q as int, pk as int);
        vstd::arithmetic::div_mod::lemma_mod_pos_bound(q as int, pk as int);
        assert(v == a * (256 * pk) + (256 * b + r) && 0 <= 256 * b + r < 256 * pk) by (nonlinear_arith)
            requires
                v == 256 * q + r,
                q == pk * a + b,
                0 <= b < pk,
                0 <= r < 256,
        {}
        vstd::arithmetic::div_mod::lemma_fundamental_div_mod_converse(
            v as int,
            (256 * pk) as int,
            a as int,
            (256 * b + r) as int,
        );
    } else {
        assert(v % 1 == 0);
    }
}

pub proof fn lemma_p256_pos(k: nat)
    ensures
        p256(k) >= 1,
    decreases k,
{
    if k > 0 {
        lemma_p256_pos((k - 1) as nat);
    }
}

/// A length read after a marker: from the `k` bytes after the first one.
pub open spec fn len_after(s: Seq<u8>, k: int) -> Option<(nat, int)> {
    if s.len() < 1 + k {
        None
    } else {
        Some((be_nat(s.subrange(1, 1 + k)), 1 + k))
    }
}

/// An array length: a fixarray marker, or `0xdc`/`0xdd` and a 2- or 4-byte
/// big-endian length. The length and how many bytes it takes.
pub open spec fn mp_array_len(s: Seq<u8>) -> Option<(nat, int)> {
    if s.len() == 0 {
        None
    } else if 0x90 <= s[0] <= 0x9f {
        Some(((s[0] - 0x90) as nat, 1))
    } else if s[0] == 0xdc {
        len_after(s, 2)
    } else if s[0] == 0xdd {
        len_after(s, 4)
    } else {
        None
    }
}

/// A map length: a fixmap marker, or `0xde`/`0xdf` and a 2- or 4-byte
/// big-endian length.
pub open spec fn mp_map_len(s: Seq<u8>) -> Option<(nat, int)> {
    if s.len() == 0 {
        None
    } else if 0x80 <= s[0] <= 0x8f {
        Some(((s[0] - 0x80) as nat, 1))
    } else if s[0] == 0xde {
        len_after(s, 2)
    } else if s[0] == 0xdf {
        len_after(s, 4)
    } else {
        None
    }
}

/// A string length: a fixstr marker, or `0xd9`/`0xda`/`0xdb` and a 1-, 2- or
/// 4-byte big-endian length.
pub open spec fn mp_str_len(s: Seq<u8>) -> Option<(nat, int)> {
    if s.len() == 0 {
        None
    } else if 0xa0 <= s[0] <= 0xbf {
        Some(((s[0] - 0xa0) as nat, 1))
    } else if s[0] == 0xd9 {
        len_after(s, 1)
    } else if s[0] == 0xda {
        len_after(s, 2)
    } else if s[0] == 0xdb {
        len_after(s, 4)
    } else {
        None
    }
}

/// Reads a marker byte with `rmp::decode::read_marker`. Claimed, as its
/// source shows: it takes the first byte, and fails only on empty input.
#[verifier::external_body]
pub(crate) fn mp_read_marker(buf: &mut &[u8]) -> (r: Option<u8>)
    ensures
        match r {
            Some(m) => old(buf)@.len() >= 1 && m == old(buf)@[0] && final(buf)@ == old(buf)@.skip(1),
            None => old(buf)@.len() == 0,
        },
{
    rmp::decode::read_marker(buf).ok().map(|m| m.to_u8())
}

/// Reads an array length with `rmp::decode::read_array_len`. Claimed, as its
/// source shows: see [`mp_array_len`]; it fails where that has none.
#[verifier::external_body]
pub(crate) fn mp_read_array_len(buf: &mut &[u8]) -> (r: Option<u32>)
    ensures
        match mp_array_len(old(buf)@) {
            Some((n, k)) => r matches Some(v) && v == n && final(buf)@ == old(buf)@.skip(k),
            None => r is None,
        },
{
    rmp::decode::read_array_len(buf).ok()
}

/// Reads a map length with `rmp::decode::read_map_len` (see [`mp_map_len`]).
#[verifier::external_body]
pub(crate) fn mp_read_map_len(buf: &mut &[u8]) -> (r: Option<u32>)
    ensures
        match mp_map_len(old(buf)@) {
            Some((n, k)) => r matches Some(v) && v == n && final(buf)@ == old(buf)@.skip(k),
            None => r is None,
        },
{
    rmp::decode::read_map_len(buf).ok()
}

/// Reads a string length with `rmp::decode::read_str_len` (see
/// [`mp_str_len`]).
#[verifier::external_body]
pub(crate) fn mp_read_str_len(buf: &mut &[u8]) -> (r: Option<u32>)
    ensures
        match mp_str_len(old(buf)@) {
            Some((n, k)) => r matches Some(v) && v == n && final(buf)@ == old(buf)@.skip(k),
            None => r is None,
        },
{
    rmp::decode::read_str_len(buf).ok()
}

/// Reads a nil with `rmp::decode::read_nil`: succeeds where the first byte
/// is `0xc0`, and takes it.
#[verifier::external_body]
pub(crate) fn mp_read_nil(buf: &mut &[u8]) -> (r: bool)
    ensures
        r == (old(buf)@.len() >= 1 && old(buf)@[0] == 0xc0),
        r ==> final(buf)@ == old(buf)@.skip(1),
{
    rmp::decode::read_nil(buf).is_ok()
}

/// Reads one byte with `RmpRead::read_data_u8`.
#[verifier::external_body]
pub(crate) fn mp_read_data_u8(buf: &mut &[u8]) -> (r: Option<u8>)
    ensures
        match r {
            Some(v) => old(buf)@.len() >= 1 && v == be_nat(old(buf)@.take(1)) && final(buf)@ == old(
                buf,
            )@.skip(1),
            None => old(buf)@.len() < 1,
        },
{
    rmp::decode::RmpRead::read_data_u8(buf).ok()
}

/// Reads a big-endian `u16` with `RmpRead::read_data_u16`.
#[verifier::external_body]
pub(crate) fn mp_read_data_u16(buf: &mut &[u8]) -> (r: Option<u16>)
    ensures
        match r {
            Some(v) => old(buf)@.len() >= 2 && v == be_nat(old(buf)@.take(2)) && final(buf)@ == old(
                buf,
            )@.skip(2),
            None => old(buf)@.len() < 2,
        },
{
    rmp::decode::RmpRead::read_data_u16(buf).ok()
}

/// Reads a big-endian `u32` with `RmpRead::read_data_u32`.
#[verifier::external_body]
pub(crate) fn mp_read_data_u32(buf: &mut &[u8]) -> (r: Option<u32>)
    ensures
        match r {
            Some(v) => old(buf)@.len() >= 4 && v == be_nat(old(buf)@.take(4)) && final(buf)@ == old(
                buf,
            )@.skip(4),
            None => old(buf)@.len() < 4,
        },
{
    rmp::decode::RmpRead::read_data_u32(buf).ok()
}

/// Reads a big-endian `u64` with `RmpRead::read_data_u64`.
#[verifier::external_body]
pub(crate) fn mp_read_data_u64(buf: &mut &[u8]) -> (r: Option<u64>)
    ensures
        match r {
            Some(v) => old(buf)@.len() >= 8 && v == be_nat(old(buf)@.take(8)) && final(buf)@ == old(
                buf,
            )@.skip(8),
            None => old(buf)@.len() < 8,
        },
{
    rmp::decode::RmpRead::read_data_u64(buf).ok()
}

/// Reads an `i8` with `RmpRead::read_data_i8`.
#[verifier::external_body]
pub(crate) fn mp_read_data_i8(buf: &mut &[u8]) -> (r: Option<i8>)
    ensures
        match r {
            Some(v) => old(buf)@.len() >= 1 && v == twos(be_nat(old(buf)@.take(1)), 1) && final(buf)@
                == old(buf)@.skip(1),
            None => old(buf)@.len() < 1,
        },
{
    rmp::decode::RmpRead::read_data_i8(buf).ok()
}

/// Reads a big-endian `i16` with `RmpRead::read_data_i16`.
#[verifier::external_body]
pub(crate) fn mp_read_data_i16(buf: &mut &[u8]) -> (r: Option<i16>)
    ensures
        match r {
            Some(v) => old(buf)@.len() >= 2 && v == twos(be_nat(old(buf)@.take(2)), 2) && final(buf)@
                == old(buf)@.skip(2),
            None => old(buf)@.len() < 2,
        },
{
    rmp::decode::RmpRead::read_data_i16(buf).ok()
}

/// Reads a big-endian `i32` with `RmpRead::read_data_i32`.
#[verifier::external_body]
pub(crate) fn mp_read_data_i32(buf: &mut &[u8]) -> (r: Option<i32>)
    ensures
        match r {
            Some(v) => old(buf)@.len() >= 4 && v == twos(be_nat(old(buf)@.take(4)), 4) && final(buf)@
                == old(buf)@.skip(4),
            None => old(buf)@.len() < 4,
        },
{
    rmp::decode::RmpRead::read_data_i32(buf).ok()
}

/// Reads a big-endian `i64` with `RmpRead::read_data_i64`.
#[verifier::external_body]
pub(crate) fn mp_read_data_i64(buf: &mut &[u8]) -> (r: Option<i64>)
    ensures
        match r {
            Some(v) => old(buf)@.len() >= 8 && v == twos(be_nat(old(buf)@.take(8)), 8) && final(buf)@
                == old(buf)@.skip(8),
            None => old(buf)@.len() < 8,
        },
{
    rmp::decode::RmpRead::read_data_i64(buf).ok()
}

/// Appends a positive fixint with `rmp::encode::write_pfix`: the byte
/// itself. It panics on 128 or more, so that is ruled out. Appending to a
/// `Vec` does not fail.
#[verifier::external_body]
pub(crate) fn mp_write_pfix(buf: &mut Vec<u8>, v: u8)
    requires
        v < 128,
    ensures
        final(buf)@ == old(buf)@.push(v),
{
    let _ = rmp::encode::write_pfix(buf, v);
}

/// Appends a negative fixint with `rmp::encode::write_nfix`: the byte of its
/// two's complement. It panics outside `-32..0`, so that is ruled out.
#[verifier::external_body]
pub(crate) fn mp_write_nfix(buf: &mut Vec<u8>, v: i8)
    requires
        -32 <= v < 0,
    ensures
        final(buf)@ == old(buf)@.push((v + 256) as u8),
{
    let _ = rmp::encode::write_nfix(buf, v);
}

/// Appends a `i8` with `rmp::encode::write_i8`: the marker `0xd0` and the
/// 1 big-endian byte(s) of its two's complement.
#[verifier::external_body]
pub(crate) fn mp_write_i8(buf: &mut Vec<u8>, v: i8)
    ensures
        final(buf)@ == old(buf)@ + seq![0xd0u8] + be_bytes(to_bits(v as int, 1), 1),
{
    let _ = rmp::encode::write_i8(buf, v);
}

/// Appends a `i16` with `rmp::encode::write_i16`: the marker `0xd1` and the
/// 2 big-endian byte(s) of its two's complement.
#[verifier::external_body]
pub(crate) fn mp_write_i16(buf: &mut Vec<u8>, v: i16)
    ensures
        final(buf)@ == old(buf)@ + seq![0xd1u8] + be_bytes(to_bits(v as int, 2), 2),
{
    let _ = rmp::encode::write_i16(buf, v);
}

/// Appends a `i32` with `rmp::encode::write_i32`: the marker `0xd2` and the
/// 4 big-endian byte(s) of its two's complement.
#[verifier::external_body]
pub(crate) fn mp_write_i32(buf: &mut Vec<u8>, v: i32)
    ensures
        final(buf)@ == old(buf)@ + seq![0xd2u8] + be_bytes(to_bits(v as int, 4), 4),
{
    let _ = rmp::encode::write_i32(buf, v);
}

/// Appends a `i64` with `rmp::encode::write_i64`: the marker `0xd3` and the
/// 8 big-endian byte(s) of its two's complement.
#[verifier::external_body]
pub(crate) fn mp_write_i64(buf: &mut Vec<u8>, v: i64)
    ensures
        final(buf)@ == old(buf)@ + seq![0xd3u8] + be_bytes(to_bits(v as int, 8), 8),
{
    let _ = rmp::encode::write_i64(buf, v);
}

/// Appends a `u8` with `rmp::encode::write_u8`: the marker `0xcc` and the
/// 1 big-endian byte(s) of the value.
#[verifier::external_body]
pub(crate) fn mp_write_u8(buf: &mut Vec<u8>, v: u8)
    ensures
        final(buf)@ == old(buf)@ + seq![0xccu8] + be_bytes(v as nat, 1),
{
    let _ = rmp::encode::write_u8(buf, v);
}

/// Appends a `u16` with `rmp::encode::write_u16`: the marker `0xcd` and the
/// 2 big-endian byte(s) of the value.
#[verifier::external_body]
pub(crate) fn mp_write_u16(buf: &mut Vec<u8>, v: u16)
    ensures
        final(buf)@ == old(buf)@ + seq![0xcdu8] + be_bytes(v as nat, 2),
{
    let _ = rmp::encode::write_u16(buf, v);
}

/// Appends a `u32` with `rmp::encode::write_u32`: the marker `0xce` and the
/// 4 big-endian byte(s) of the value.
#[verifier::external_body]
pub(crate) fn mp_write_u32(buf: &mut Vec<u8>, v: u32)
    ensures
        final(buf)@ == old(buf)@ + seq![0xceu8] + be_bytes(v as nat, 4),
{
    let _ = rmp::encode::write_u32(buf, v);
}

/// Appends a `u64` with `rmp::encode::write_u64`: the marker `0xcf` and the
/// 8 big-endian byte(s) of the value.
#[verifier::external_body]
pub(crate) fn mp_write_u64(buf: &mut Vec<u8>, v: u64)
    ensures
        final(buf)@ == old(buf)@ + seq![0xcfu8] + be_bytes(v as nat, 8),
{
    let _ = rmp::encode::write_u64(buf, v);
}

/// The header in front of a MessagePack string of `n` bytes.
pub open spec fn str_header(n: nat) -> Seq<u8> {
    if n < 32 {
        seq![(0xa0 + n) as u8]
    } else if n < 256 {
        seq![0xd9u8, n as u8]
    } else if n < 65536 {
        seq![0xdau8] + be_bytes(n, 2)
    } else {
        seq![0xdbu8] + be_bytes(n, 4)
    }
}

/// The header in front of a MessagePack array of `n` items.
pub open spec fn array_header(n: nat) -> Seq<u8> {
    if n < 16 {
        seq![(0x90 + n) as u8]
    } else if n < 65536 {
        seq![0xdcu8] + be_bytes(n, 2)
    } else {
        seq![0xddu8] + be_bytes(n, 4)
    }
}

/// The header in front of a MessagePack map of `n` pairs.
pub open spec fn map_header(n: nat) -> Seq<u8> {
    if n < 16 {
        seq![(0x80 + n) as u8]
    } else if n < 65536 {
        seq![0xdeu8] + be_bytes(n, 2)
    } else {
        seq![0xdfu8] + be_bytes(n, 4)
    }
}

/// The header in front of MessagePack binary data of `n` bytes.
pub open spec fn bin_header(n: nat) -> Seq<u8> {
    if n < 256 {
        seq![0xc4u8, n as u8]
    } else if n < 65536 {
        seq![0xc5u8] + be_bytes(n, 2)
    } else {
        seq![0xc6u8] + be_bytes(n, 4)
    }
}

/// Appends a boolean with `rmp::encode::write_bool`: the marker `0xc3` for
/// `true`, `0xc2` for `false`.
#[verifier::external_body]
pub(crate) fn mp_write_bool(buf: &mut Vec<u8>, v: bool)
    ensures
        final(buf)@ == old(buf)@.push(if v { 0xc3u8 } else { 0xc2u8 }),
{
    let _ = rmp::encode::write_bool(buf, v);
}

/// Appends a string with `rmp::encode::write_str`: the header for its
/// length in bytes (fixstr, str8, str16 or str32, the shortest that holds
/// it), then its UTF-8 bytes. The length is cast to `u32`, so a longer
/// string is ruled out.
#[verifier::external_body]
pub(crate) fn mp_write_str(buf: &mut Vec<u8>, s: &str)
    requires
        encode_utf8(s@).len() <= u32::MAX,
    ensures
        final(buf)@ == old(buf)@ + str_header(encode_utf8(s@).len()) + encode_utf8(s@),
{
    let _ = rmp::encode::write_str(buf, s);
}

/// Appends an array header with `rmp::encode::write_array_len`: fixarray,
/// array16 or array32, the shortest that holds `n`.
#[verifier::external_body]
pub(crate) fn mp_write_array_len(buf: &mut Vec<u8>, n: u32)
    ensures
        final(buf)@ == old(buf)@ + array_header(n as nat),
{
    let _ = rmp::encode::write_array_len(buf, n);
}

/// Appends a map header with `rmp::encode::write_map_len`: fixmap, map16 or
/// map32, the shortest that holds `n`.
#[verifier::external_body]
pub(crate) fn mp_write_map_len(buf: &mut Vec<u8>, n: u32)
    ensures
        final(buf)@ == old(buf)@ + map_header(n as nat),
{
    let _ = rmp::encode::write_map_len(buf, n);
}

/// Appends a binary header with `rmp::encode::write_bin_len`: bin8, bin16
/// or bin32, the shortest that holds `n`.
#[verifier::external_body]
pub(crate) fn mp_write_bin_len(buf: &mut Vec<u8>, n: u32)
    ensures
        final(buf)@ == old(buf)@ + bin_header(n as nat),
{
    let _ = rmp::encode::write_bin_len(buf, n);
}

/// The length in front of MessagePack binary data, and the bytes it takes:
/// bin8, bin16 or bin32.
pub open spec fn mp_bin_len(s: Seq<u8>) -> Option<(nat, int)> {
    if s.len() == 0 {
        None
    } else if s[0] == 0xc4 {
        len_after(s, 1)
    } else if s[0] == 0xc5 {
        len_after(s, 2)
    } else if s[0] == 0xc6 {
        len_after(s, 4)
    } else {
        None
    }
}

/// Reads a binary length with `rmp::decode::read_bin_len` (see
/// [`mp_bin_len`]).
#[verifier::external_body]
pub(crate) fn mp_read_bin_len(buf: &mut &[u8]) -> (r: Option<u32>)
    ensures
        match mp_bin_len(old(buf)@) {
            Some((n, k)) => r matches Some(v) && v == n && final(buf)@ == old(buf)@.skip(k),
            None => r is None,
        },
{
    rmp::decode::read_bin_len(buf).ok()
}

/// Reads a boolean with `rmp::decode::read_bool`: `0xc3` is true, `0xc2`
/// false; it fails on any other marker or on empty input.
#[verifier::external_body]
pub(crate) fn mp_read_bool(buf: &mut &[u8]) -> (r: Option<bool>)
    ensures
        old(buf)@.len() > 0 && old(buf)@[0] == 0xc3 ==> r == Some(true) && final(buf)@ == old(buf)@.skip(1),
        old(buf)@.len() > 0 && old(buf)@[0] == 0xc2 ==> r == Some(false) && final(buf)@ == old(buf)@.skip(1),
        !(old(buf)@.len() > 0 && (old(buf)@[0] == 0xc3 || old(buf)@[0] == 0xc2)) ==> r is None,
{
    rmp::decode::read_bool(buf).ok()
}

} // verus!
