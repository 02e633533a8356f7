//! The head of a MessagePack schema file: its enums, its variants and its
//! structs, each with the names of what they hold. A schema is a 2-element
//! array `[enums, structs]` or, in newer files, a 3-element array
//! `[enums, variants, structs]`.
use vstd::prelude::*;
use vstd::utf8::{decode_utf8, valid_utf8};

use crate::errors::BrdbSchemaError;
use crate::flat::read_str_from_len;
use crate::msgpack::{
    be_nat, mp_array_len, mp_map_len, mp_read_array_len, mp_read_data_i16, mp_read_data_i32,
    mp_read_data_i64, mp_read_data_i8, mp_read_data_u16, mp_read_data_u32, mp_read_data_u64,
    mp_read_data_u8, mp_read_map_len, mp_read_marker, mp_read_nil, mp_read_str_len, mp_str_len, twos,
};

verus! {

/// What a schema property holds: a value of a type, an array of it, a flat
/// array of it, or a map from one type to another.
#[derive(Debug, Clone, PartialEq, Eq)]
pub enum BrdbStructPropRaw {
    Type(String),
    Array(String),
    FlatArray(String),
    MapOf(String, String),
}

/// An enum: its name and its named values.
pub type BrdbSchemaMetaEnum = (String, Vec<(String, i32)>);

/// A variant: its name and the names of the types it can hold, in order.
pub type BrdbSchemaMetaVariant = (String, Vec<String>);

/// A struct: its name and its named properties, in order.
pub type BrdbSchemaMetaStruct = (String, Vec<(String, BrdbStructPropRaw)>);

/// A schema property as plain values.
pub enum PropView {
    Type(Seq<char>),
    Array(Seq<char>),
    FlatArray(Seq<char>),
    MapOf(Seq<char>, Seq<char>),
}

pub open spec fn prop_view(p: BrdbStructPropRaw) -> PropView {
    match p {
        BrdbStructPropRaw::Type(t) => PropView::Type(t@),
        BrdbStructPropRaw::Array(t) => PropView::Array(t@),
        BrdbStructPropRaw::FlatArray(t) => PropView::FlatArray(t@),
        BrdbStructPropRaw::MapOf(k, v) => PropView::MapOf(k@, v@),
    }
}

pub open spec fn values_view(v: Seq<(String, i32)>) -> Seq<(Seq<char>, i32)> {
    v.map_values(|e: (String, i32)| (e.0@, e.1))
}

pub open spec fn enums_view(v: Seq<BrdbSchemaMetaEnum>) -> Seq<(Seq<char>, Seq<(Seq<char>, i32)>)> {
    v.map_values(|e: BrdbSchemaMetaEnum| (e.0@, values_view(e.1@)))
}

pub open spec fn names_view(v: Seq<String>) -> Seq<Seq<char>> {
    v.map_values(|e: String| e@)
}

pub open spec fn variants_view(v: Seq<BrdbSchemaMetaVariant>) -> Seq<(Seq<char>, Seq<Seq<char>>)> {
    v.map_values(|e: BrdbSchemaMetaVariant| (e.0@, names_view(e.1@)))
}

pub open spec fn props_view(v: Seq<(String, BrdbStructPropRaw)>) -> Seq<(Seq<char>, PropView)> {
    v.map_values(|e: (String, BrdbStructPropRaw)| (e.0@, prop_view(e.1)))
}

pub open spec fn structs_view(v: Seq<BrdbSchemaMetaStruct>) -> Seq<(Seq<char>, Seq<(Seq<char>, PropView)>)> {
    v.map_values(|e: BrdbSchemaMetaStruct| (e.0@, props_view(e.1@)))
}

/// The enums, variants and structs of a schema as plain values.
pub type MetaView = (
    Seq<(Seq<char>, Seq<(Seq<char>, i32)>)>,
    Seq<(Seq<char>, Seq<Seq<char>>)>,
    Seq<(Seq<char>, Seq<(Seq<char>, PropView)>)>,
);

pub open spec fn meta_view(
    m: (Vec<BrdbSchemaMetaEnum>, Vec<BrdbSchemaMetaVariant>, Vec<BrdbSchemaMetaStruct>),
) -> MetaView {
    (enums_view(m.0@), variants_view(m.1@), structs_view(m.2@))
}

/// Why a schema could not be read, as plain values.
pub enum MetaErr {
    Eof,
    Utf8,
    ValueRead,
    MarkerRead,
    Header(u32),
    Schema(Seq<char>),
    Expected(Seq<char>, Seq<char>),
    UnknownType(Seq<char>),
    UnknownWireVariant(nat),
    UnknownAsset(Seq<char>, nat),
    EnumIndex(Seq<char>, u64),
    InvalidFlat(Seq<char>),
    FlatDataSize(Seq<char>, nat, nat),
    UnknownSchemaType(Seq<char>),
    MissingField(Seq<char>, Seq<char>),
    Other,
}

/// An error as plain values.
pub open spec fn err_view(e: BrdbSchemaError) -> MetaErr {
    match e {
        BrdbSchemaError::UnexpectedEof => MetaErr::Eof,
        BrdbSchemaError::InvalidUtf8 => MetaErr::Utf8,
        BrdbSchemaError::RmpValueReadError => MetaErr::ValueRead,
        BrdbSchemaError::RmpMarkerReadError => MetaErr::MarkerRead,
        BrdbSchemaError::InvalidHeader(h) => MetaErr::Header(h),
        BrdbSchemaError::InvalidSchema(m) => MetaErr::Schema(m@),
        BrdbSchemaError::ExpectedType(a, b) => MetaErr::Expected(a@, b@),
        BrdbSchemaError::UnknownType(t) => MetaErr::UnknownType(t@),
        BrdbSchemaError::UnknownWireVariant(t) => MetaErr::UnknownWireVariant(t as nat),
        BrdbSchemaError::UnknownAsset(t, i) => MetaErr::UnknownAsset(t@, i as nat),
        BrdbSchemaError::EnumIndexOutOfBounds(n, i) => MetaErr::EnumIndex(n@, i),
        BrdbSchemaError::InvalidFlatType(t) => MetaErr::InvalidFlat(t@),
        BrdbSchemaError::InvalidFlatDataSize(t, n, k) => MetaErr::FlatDataSize(t@, n as nat, k as nat),
        BrdbSchemaError::UnknownSchemaType(t) => MetaErr::UnknownSchemaType(t@),
        BrdbSchemaError::MissingStructField(s, f) => MetaErr::MissingField(s@, f@),
        _ => MetaErr::Other,
    }
}

/// Result of a parser over bytes: the value and what is left of the input.
pub type MParsed<T> = Result<(T, Seq<u8>), MetaErr>;

/// `x` in front of the list that `r` parsed.
pub open spec fn prepend<T>(x: T, r: MParsed<Seq<T>>) -> MParsed<Seq<T>> {
    match r {
        Ok((xs, rest)) => Ok((seq![x] + xs, rest)),
        Err(e) => Err(e),
    }
}

/// `acc` in front of the list that `r` parsed.
pub open spec fn after<T>(acc: Seq<T>, r: MParsed<Seq<T>>) -> MParsed<Seq<T>> {
    match r {
        Ok((xs, rest)) => Ok((acc + xs, rest)),
        Err(e) => Err(e),
    }
}

proof fn lemma_after_prepend<T>(acc: Seq<T>, x: T, r: MParsed<Seq<T>>)
    ensures
        after(acc, prepend(x, r)) == after(acc.push(x), r),
{
    if let Ok((xs, rest)) = r {
        assert(acc + (seq![x] + xs) =~= acc.push(x) + xs);
    }
}

/// `n` bytes.
pub open spec fn m_bytes(s: Seq<u8>, n: nat) -> MParsed<nat> {
    if s.len() < n {
        Err(MetaErr::ValueRead)
    } else {
        Ok((be_nat(s.take(n as int)), s.skip(n as int)))
    }
}

/// `n` bytes of UTF-8.
pub open spec fn m_utf8(s: Seq<u8>, n: nat) -> MParsed<Seq<char>> {
    if s.len() < n {
        Err(MetaErr::Eof)
    } else if !valid_utf8(s.take(n as int)) {
        Err(MetaErr::Utf8)
    } else {
        Ok((decode_utf8(s.take(n as int)), s.skip(n as int)))
    }
}

/// A MessagePack string.
pub open spec fn m_str(s: Seq<u8>) -> MParsed<Seq<char>> {
    match mp_str_len(s) {
        None => Err(MetaErr::ValueRead),
        Some((n, k)) => m_utf8(s.skip(k), n),
    }
}

/// A MessagePack integer of any width and sign, as an `i64` (an unsigned
/// 64-bit value wraps).
pub open spec fn m_int(s: Seq<u8>) -> MParsed<i64> {
    if s.len() == 0 {
        Err(MetaErr::MarkerRead)
    } else {
        let m = s[0];
        let r = s.skip(1);
        if m <= 0x7f {
            Ok((m as i64, r))
        } else if m >= 0xe0 {
            Ok(((m - 256) as i64, r))
        } else if m == 0xcc || m == 0xcd || m == 0xce || m == 0xcf {
            let k: nat = if m == 0xcc { 1 } else if m == 0xcd { 2 } else if m == 0xce { 4 } else { 8 };
            match m_bytes(r, k) {
                Ok((v, r2)) => Ok((#[verifier::truncate] (v as i64), r2)),
                Err(e) => Err(e),
            }
        } else if m == 0xd0 || m == 0xd1 || m == 0xd2 || m == 0xd3 {
            let k: nat = if m == 0xd0 { 1 } else if m == 0xd1 { 2 } else if m == 0xd2 { 4 } else { 8 };
            match m_bytes(r, k) {
                Ok((v, r2)) => Ok((twos(v, k) as i64, r2)),
                Err(e) => Err(e),
            }
        } else {
            Err(MetaErr::MarkerRead)
        }
    }
}

/// An enum value: its name and its integer, cut to 32 bits.
pub open spec fn m_value(s: Seq<u8>) -> MParsed<(Seq<char>, i32)> {
    match m_str(s) {
        Err(e) => Err(e),
        Ok((k, s1)) => match m_int(s1) {
            Err(e) => Err(e),
            Ok((v, s2)) => Ok(((k, #[verifier::truncate] (v as i32)), s2)),
        },
    }
}

/// An enum: its name and a map of its values.
pub open spec fn m_enum(s: Seq<u8>) -> MParsed<(Seq<char>, Seq<(Seq<char>, i32)>)> {
    match m_str(s) {
        Err(e) => Err(e),
        Ok((name, s1)) => match mp_map_len(s1) {
            None => Err(MetaErr::ValueRead),
            Some((n, k)) => match m_values(s1.skip(k), n) {
                Err(e) => Err(e),
                Ok((vs, s2)) => Ok(((name, vs), s2)),
            },
        },
    }
}

/// A variant: its name and an array of the names of its member types.
pub open spec fn m_variant(s: Seq<u8>) -> MParsed<(Seq<char>, Seq<Seq<char>>)> {
    match m_str(s) {
        Err(e) => Err(e),
        Ok((name, s1)) => match mp_array_len(s1) {
            None => Err(MetaErr::ValueRead),
            Some((n, k)) => match m_members(s1.skip(k), n) {
                Err(e) => Err(e),
                Ok((ms, s2)) => Ok(((name, ms), s2)),
            },
        },
    }
}

/// The type of a struct property, told by its first byte: a string names a
/// type; a 1-element array `[type]` is an array of it; a 2-element array
/// `[type, nil]` is a flat array of it; a 1-entry map `{key: value}` is a map.
pub open spec fn m_prop(s: Seq<u8>) -> MParsed<PropView> {
    if s.len() == 0 {
        Err(MetaErr::MarkerRead)
    } else {
        let m = s[0];
        let r = s.skip(1);
        if 0xa0 <= m <= 0xbf {
            match m_utf8(r, (m - 0xa0) as nat) {
                Err(e) => Err(e),
                Ok((t, r2)) => Ok((PropView::Type(t), r2)),
            }
        } else if m == 0xd9 || m == 0xda {
            match m_bytes(r, if m == 0xd9 { 1 } else { 2 }) {
                Err(e) => Err(e),
                Ok((n, r2)) => match m_utf8(r2, n) {
                    Err(e) => Err(e),
                    Ok((t, r3)) => Ok((PropView::Type(t), r3)),
                },
            }
        } else if m == 0x90 {
            Err(MetaErr::Schema("0 length FixArray marker not supported"@))
        } else if m == 0x91 {
            match m_str(r) {
                Err(e) => Err(e),
                Ok((t, r2)) => Ok((PropView::Array(t), r2)),
            }
        } else if m == 0x92 {
            match m_str(r) {
                Err(e) => Err(e),
                Ok((t, r2)) => if r2.len() >= 1 && r2[0] == 0xc0 {
                    Ok((PropView::FlatArray(t), r2.skip(1)))
                } else {
                    Err(MetaErr::ValueRead)
                },
            }
        } else if m == 0x81 {
            match m_str(r) {
                Err(e) => Err(e),
                Ok((kt, r2)) => match m_str(r2) {
                    Err(e) => Err(e),
                    Ok((vt, r3)) => Ok((PropView::MapOf(kt, vt), r3)),
                },
            }
        } else if 0x80 <= m <= 0x8f {
            Err(MetaErr::Schema("FixMap with length != 1 is not supported"@))
        } else {
            Err(MetaErr::Schema("Unsupported property type marker"@))
        }
    }
}

/// A struct property: its name and its type.
pub open spec fn m_prop_entry(s: Seq<u8>) -> MParsed<(Seq<char>, PropView)> {
    match m_str(s) {
        Err(e) => Err(e),
        Ok((name, s1)) => match m_prop(s1) {
            Err(e) => Err(e),
            Ok((pv, s2)) => Ok(((name, pv), s2)),
        },
    }
}

/// A struct: its name and a map of its properties.
pub open spec fn m_struct(s: Seq<u8>) -> MParsed<(Seq<char>, Seq<(Seq<char>, PropView)>)> {
    match m_str(s) {
        Err(e) => Err(e),
        Ok((name, s1)) => match mp_map_len(s1) {
            None => Err(MetaErr::ValueRead),
            Some((n, k)) => match m_props(s1.skip(k), n) {
                Err(e) => Err(e),
                Ok((ps, s2)) => Ok(((name, ps), s2)),
            },
        },
    }
}

/// `n` items, one after the other (see [`m_value`]).
pub open spec fn m_values(s: Seq<u8>, n: nat) -> MParsed<Seq<(Seq<char>, i32)>>
    decreases n,
{
    if n == 0 {
        Ok((seq![], s))
    } else {
        match m_value(s) {
            Err(e) => Err(e),
            Ok((x, r)) => prepend(x, m_values(r, (n - 1) as nat)),
        }
    }
}

/// `n` items, one after the other (see [`m_enum`]).
pub open spec fn m_enums(s: Seq<u8>, n: nat) -> MParsed<Seq<(Seq<char>, Seq<(Seq<char>, i32)>)>>
    decreases n,
{
    if n == 0 {
        Ok((seq![], s))
    } else {
        match m_enum(s) {
            Err(e) => Err(e),
            Ok((x, r)) => prepend(x, m_enums(r, (n - 1) as nat)),
        }
    }
}

/// `n` items, one after the other (see [`m_str`]).
pub open spec fn m_members(s: Seq<u8>, n: nat) -> MParsed<Seq<Seq<char>>>
    decreases n,
{
    if n == 0 {
        Ok((seq![], s))
    } else {
        match m_str(s) {
            Err(e) => Err(e),
            Ok((x, r)) => prepend(x, m_members(r, (n - 1) as nat)),
        }
    }
}

/// `n` items, one after the other (see [`m_variant`]).
pub open spec fn m_variants(s: Seq<u8>, n: nat) -> MParsed<Seq<(Seq<char>, Seq<Seq<char>>)>>
    decreases n,
{
    if n == 0 {
        Ok((seq![], s))
    } else {
        match m_variant(s) {
            Err(e) => Err(e),
            Ok((x, r)) => prepend(x, m_variants(r, (n - 1) as nat)),
        }
    }
}

/// `n` items, one after the other (see [`m_prop_entry`]).
pub open spec fn m_props(s: Seq<u8>, n: nat) -> MParsed<Seq<(Seq<char>, PropView)>>
    decreases n,
{
    if n == 0 {
        Ok((seq![], s))
    } else {
        match m_prop_entry(s) {
            Err(e) => Err(e),
            Ok((x, r)) => prepend(x, m_props(r, (n - 1) as nat)),
        }
    }
}

/// `n` items, one after the other (see [`m_struct`]).
pub open spec fn m_structs(s: Seq<u8>, n: nat) -> MParsed<Seq<(Seq<char>, Seq<(Seq<char>, PropView)>)>>
    decreases n,
{
    if n == 0 {
        Ok((seq![], s))
    } else {
        match m_struct(s) {
            Err(e) => Err(e),
            Ok((x, r)) => prepend(x, m_structs(r, (n - 1) as nat)),
        }
    }
}

/// A whole schema head: a 2- or 3-element array header, a map of enums, a map
/// of variants where the header has 3 elements, and a map of structs.
pub open spec fn parse_schema_meta(s: Seq<u8>) -> MParsed<MetaView> {
    match mp_array_len(s) {
        None => Err(MetaErr::ValueRead),
        Some((h, k)) => if h != 2 && h != 3 {
            Err(MetaErr::Header(h as u32))
        } else {
            let s1 = s.skip(k);
            match mp_map_len(s1) {
                None => Err(MetaErr::ValueRead),
                Some((ne, k1)) => match m_enums(s1.skip(k1), ne) {
                    Err(e) => Err(e),
                    Ok((es, s2)) => {
                        let vr: MParsed<Seq<(Seq<char>, Seq<Seq<char>>)>> = if h == 3 {
                            match mp_map_len(s2) {
                                None => Err(MetaErr::ValueRead),
                                Some((nv, k2)) => m_variants(s2.skip(k2), nv),
                            }
                        } else {
                            Ok((seq![], s2))
                        };
                        match vr {
                            Err(e) => Err(e),
                            Ok((vs, s3)) => match mp_map_len(s3) {
                                None => Err(MetaErr::ValueRead),
                                Some((ns, k3)) => match m_structs(s3.skip(k3), ns) {
                                    Err(e) => Err(e),
                                    Ok((ss, s4)) => Ok(((es, vs, ss), s4)),
                                },
                            },
                        }
                    },
                },
            }
        },
    }
}

/// Reads a MessagePack string.
pub fn read_owned_str(buf: &mut &[u8]) -> (res: Result<String, BrdbSchemaError>)
    ensures
        match m_str(old(buf)@) {
            Ok((v, rest)) => res matches Ok(x) && x@ == v && final(buf)@ == rest,
            Err(e) => res matches Err(e2) && err_view(e2) == e,
        },
{
    match mp_read_str_len(buf) {
        Some(n) => read_str_from_len(buf, n as usize),
        None => Err(BrdbSchemaError::RmpValueReadError),
    }
}

/// Reads a MessagePack integer of any width and sign (see [`m_int`]).
pub fn read_int(buf: &mut &[u8]) -> (res: Result<i64, BrdbSchemaError>)
    ensures
        match m_int(old(buf)@) {
            Ok((v, rest)) => res == Ok::<i64, BrdbSchemaError>(v) && final(buf)@ == rest,
            Err(e) => res matches Err(e2) && err_view(e2) == e,
        },
{
    let ghost s = buf@;
    let m = match mp_read_marker(buf) {
        Some(m) => m,
        None => {
            return Err(BrdbSchemaError::RmpMarkerReadError);
        },
    };
    let ghost r = buf@;
    assert(r == s.skip(1));
    if m <= 0x7f {
        Ok(m as i64)
    } else if m >= 0xe0 {
        Ok(m as i64 - 256)
    } else if m == 0xcc {
        match mp_read_data_u8(buf) {
            Some(v) => Ok(v as i64),
            None => Err(BrdbSchemaError::RmpValueReadError),
        }
    } else if m == 0xcd {
        match mp_read_data_u16(buf) {
            Some(v) => Ok(v as i64),
            None => Err(BrdbSchemaError::RmpValueReadError),
        }
    } else if m == 0xce {
        match mp_read_data_u32(buf) {
            Some(v) => Ok(v as i64),
            None => Err(BrdbSchemaError::RmpValueReadError),
        }
    } else if m == 0xcf {
        match mp_read_data_u64(buf) {
            Some(v) => Ok(#[verifier::truncate] (v as i64)),
            None => Err(BrdbSchemaError::RmpValueReadError),
        }
    } else if m == 0xd0 {
        match mp_read_data_i8(buf) {
            Some(v) => Ok(v as i64),
            None => Err(BrdbSchemaError::RmpValueReadError),
        }
    } else if m == 0xd1 {
        match mp_read_data_i16(buf) {
            Some(v) => Ok(v as i64),
            None => Err(BrdbSchemaError::RmpValueReadError),
        }
    } else if m == 0xd2 {
        match mp_read_data_i32(buf) {
            Some(v) => Ok(v as i64),
            None => Err(BrdbSchemaError::RmpValueReadError),
        }
    } else if m == 0xd3 {
        match mp_read_data_i64(buf) {
            Some(v) => Ok(v),
            None => Err(BrdbSchemaError::RmpValueReadError),
        }
    } else {
        Err(BrdbSchemaError::RmpMarkerReadError)
    }
}

/// Reads an enum value (see [`m_value`]).
fn read_value(buf: &mut &[u8]) -> (res: Result<(String, i32), BrdbSchemaError>)
    ensures
        match m_value(old(buf)@) {
            Ok((v, rest)) => res matches Ok(x) && (x.0@, x.1) == v && final(buf)@ == rest,
            Err(e) => res matches Err(e2) && err_view(e2) == e,
        },
{
    let key = read_owned_str(buf)?;
    let value = read_int(buf)?;
    Ok((key, #[verifier::truncate] (value as i32)))
}

/// Reads an enum (see [`m_enum`]).
fn read_enum(buf: &mut &[u8]) -> (res: Result<BrdbSchemaMetaEnum, BrdbSchemaError>)
    ensures
        match m_enum(old(buf)@) {
            Ok((v, rest)) => res matches Ok(x) && (x.0@, values_view(x.1@)) == v && final(buf)@ == rest,
            Err(e) => res matches Err(e2) && err_view(e2) == e,
        },
{
    let name = read_owned_str(buf)?;
    let n = match mp_read_map_len(buf) {
        Some(n) => n,
        None => {
            return Err(BrdbSchemaError::RmpValueReadError);
        },
    };
    let values = read_values(buf, n)?;
    Ok((name, values))
}

/// Reads a variant (see [`m_variant`]).
fn read_variant(buf: &mut &[u8]) -> (res: Result<BrdbSchemaMetaVariant, BrdbSchemaError>)
    ensures
        match m_variant(old(buf)@) {
            Ok((v, rest)) => res matches Ok(x) && (x.0@, names_view(x.1@)) == v && final(buf)@ == rest,
            Err(e) => res matches Err(e2) && err_view(e2) == e,
        },
{
    let name = read_owned_str(buf)?;
    let n = match mp_read_array_len(buf) {
        Some(n) => n,
        None => {
            return Err(BrdbSchemaError::RmpValueReadError);
        },
    };
    let members = read_members(buf, n)?;
    Ok((name, members))
}

/// Reads the type of a struct property (see [`m_prop`]).
fn read_prop(buf: &mut &[u8]) -> (res: Result<BrdbStructPropRaw, BrdbSchemaError>)
    ensures
        match m_prop(old(buf)@) {
            Ok((v, rest)) => res matches Ok(x) && prop_view(x) == v && final(buf)@ == rest,
            Err(e) => res matches Err(e2) && err_view(e2) == e,
        },
{
    let ghost s = buf@;
    let m = match mp_read_marker(buf) {
        Some(m) => m,
        None => {
            return Err(BrdbSchemaError::RmpMarkerReadError);
        },
    };
    if 0xa0 <= m && m <= 0xbf {
        let t = read_str_from_len(buf, (m - 0xa0) as usize)?;
        Ok(BrdbStructPropRaw::Type(t))
    } else if m == 0xd9 {
        let len = match mp_read_data_u8(buf) {
            Some(v) => v,
            None => {
                return Err(BrdbSchemaError::RmpValueReadError);
            },
        };
        let t = read_str_from_len(buf, len as usize)?;
        Ok(BrdbStructPropRaw::Type(t))
    } else if m == 0xda {
        let len = match mp_read_data_u16(buf) {
            Some(v) => v,
            None => {
                return Err(BrdbSchemaError::RmpValueReadError);
            },
        };
        let t = read_str_from_len(buf, len as usize)?;
        Ok(BrdbStructPropRaw::Type(t))
    } else if m == 0x90 {
        Err(BrdbSchemaError::InvalidSchema("0 length FixArray marker not supported".to_owned()))
    } else if m == 0x91 {
        let t = read_owned_str(buf)?;
        Ok(BrdbStructPropRaw::Array(t))
    } else if m == 0x92 {
        let t = read_owned_str(buf)?;
        if !mp_read_nil(buf) {
            return Err(BrdbSchemaError::RmpValueReadError);
        }
        Ok(BrdbStructPropRaw::FlatArray(t))
    } else if m == 0x81 {
        let k = read_owned_str(buf)?;
        let v = read_owned_str(buf)?;
        Ok(BrdbStructPropRaw::MapOf(k, v))
    } else if 0x80 <= m && m <= 0x8f {
        Err(BrdbSchemaError::InvalidSchema("FixMap with length != 1 is not supported".to_owned()))
    } else {
        Err(BrdbSchemaError::InvalidSchema("Unsupported property type marker".to_owned()))
    }
}

/// Reads a struct property (see [`m_prop_entry`]).
fn read_prop_entry(buf: &mut &[u8]) -> (res: Result<(String, BrdbStructPropRaw), BrdbSchemaError>)
    ensures
        match m_prop_entry(old(buf)@) {
            Ok((v, rest)) => res matches Ok(x) && (x.0@, prop_view(x.1)) == v && final(buf)@ == rest,
            Err(e) => res matches Err(e2) && err_view(e2) == e,
        },
{
    let name = read_owned_str(buf)?;
    let p = read_prop(buf)?;
    Ok((name, p))
}

/// Reads a struct (see [`m_struct`]).
fn read_struct(buf: &mut &[u8]) -> (res: Result<BrdbSchemaMetaStruct, BrdbSchemaError>)
    ensures
        match m_struct(old(buf)@) {
            Ok((v, rest)) => res matches Ok(x) && (x.0@, props_view(x.1@)) == v && final(buf)@ == rest,
            Err(e) => res matches Err(e2) && err_view(e2) == e,
        },
{
    let name = read_owned_str(buf)?;
    let n = match mp_read_map_len(buf) {
        Some(n) => n,
        None => {
            return Err(BrdbSchemaError::RmpValueReadError);
        },
    };
    let props = read_props(buf, n)?;
    Ok((name, props))
}

/// Reads `n` items one after the other (see [`m_values`]).
fn read_values(buf: &mut &[u8], n: u32) -> (res: Result<Vec<(String, i32)>, BrdbSchemaError>)
    ensures
        match m_values(old(buf)@, n as nat) {
            Ok((v, rest)) => res matches Ok(x) && values_view(x@) == v && final(buf)@ == rest,
            Err(e) => res matches Err(e2) && err_view(e2) == e,
        },
{
    let ghost s0 = buf@;
    let mut acc: Vec<(String, i32)> = Vec::new();
    let mut i: u32 = 0;
    assert(values_view(acc@) =~= Seq::empty());
    assert(after(values_view(acc@), m_values(buf@, (n - i) as nat)) == m_values(s0, n as nat)) by {
        if let Ok((xs, rest)) = m_values(s0, n as nat) {
            assert(values_view(acc@) + xs =~= xs);
        }
    }
    while i < n
        invariant
            i <= n,
            s0 == old(buf)@,
            m_values(s0, n as nat) == after(values_view(acc@), m_values(buf@, (n - i) as nat)),
        decreases n - i,
    {
        let ghost before = values_view(acc@);
        let ghost cur = buf@;
        let x = match read_value(buf) {
            Ok(x) => x,
            Err(e) => {
                proof {
                    assert(m_value(cur) is Err);
                    assert(m_values(cur, (n - i) as nat) is Err);
                }
                return Err(e);
            },
        };
        proof {
            lemma_after_prepend(before, (x.0@, x.1), m_values(buf@, (n - i - 1) as nat));
        }
        acc.push(x);
        assert(values_view(acc@) =~= before.push((x.0@, x.1)));
        i = i + 1;
    }
    assert(values_view(acc@) + Seq::empty() =~= values_view(acc@));
    Ok(acc)
}

/// Reads `n` items one after the other (see [`m_enums`]).
fn read_enums(buf: &mut &[u8], n: u32) -> (res: Result<Vec<BrdbSchemaMetaEnum>, BrdbSchemaError>)
    ensures
        match m_enums(old(buf)@, n as nat) {
            Ok((v, rest)) => res matches Ok(x) && enums_view(x@) == v && final(buf)@ == rest,
            Err(e) => res matches Err(e2) && err_view(e2) == e,
        },
{
    let ghost s0 = buf@;
    let mut acc: Vec<BrdbSchemaMetaEnum> = Vec::new();
    let mut i: u32 = 0;
    assert(enums_view(acc@) =~= Seq::empty());
    assert(after(enums_view(acc@), m_enums(buf@, (n - i) as nat)) == m_enums(s0, n as nat)) by {
        if let Ok((xs, rest)) = m_enums(s0, n as nat) {
            assert(enums_view(acc@) + xs =~= xs);
        }
    }
    while i < n
        invariant
            i <= n,
            s0 == old(buf)@,
            m_enums(s0, n as nat) == after(enums_view(acc@), m_enums(buf@, (n - i) as nat)),
        decreases n - i,
    {
        let ghost before = enums_view(acc@);
        let ghost cur = buf@;
        let x = match read_enum(buf) {
            Ok(x) => x,
            Err(e) => {
                proof {
                    assert(m_enum(cur) is Err);
                    assert(m_enums(cur, (n - i) as nat) is Err);
                }
                return Err(e);
            },
        };
        proof {
            lemma_after_prepend(before, (x.0@, values_view(x.1@)), m_enums(buf@, (n - i - 1) as nat));
        }
        acc.push(x);
        assert(enums_view(acc@) =~= before.push((x.0@, values_view(x.1@))));
        i = i + 1;
    }
    assert(enums_view(acc@) + Seq::empty() =~= enums_view(acc@));
    Ok(acc)
}

/// Reads `n` items one after the other (see [`m_members`]).
fn read_members(buf: &mut &[u8], n: u32) -> (res: Result<Vec<String>, BrdbSchemaError>)
    ensures
        match m_members(old(buf)@, n as nat) {
            Ok((v, rest)) => res matches Ok(x) && names_view(x@) == v && final(buf)@ == rest,
            Err(e) => res matches Err(e2) && err_view(e2) == e,
        },
{
    let ghost s0 = buf@;
    let mut acc: Vec<String> = Vec::new();
    let mut i: u32 = 0;
    assert(names_view(acc@) =~= Seq::empty());
    assert(after(names_view(acc@), m_members(buf@, (n - i) as nat)) == m_members(s0, n as nat)) by {
        if let Ok((xs, rest)) = m_members(s0, n as nat) {
            assert(names_view(acc@) + xs =~= xs);
        }
    }
    while i < n
        invariant
            i <= n,
            s0 == old(buf)@,
            m_members(s0, n as nat) == after(names_view(acc@), m_members(buf@, (n - i) as nat)),
        decreases n - i,
    {
        let ghost before = names_view(acc@);
        let ghost cur = buf@;
        let x = match read_owned_str(buf) {
            Ok(x) => x,
            Err(e) => {
                proof {
                    assert(m_str(cur) is Err);
                    assert(m_members(cur, (n - i) as nat) is Err);
                }
                return Err(e);
            },
        };
        proof {
            lemma_after_prepend(before, x@, m_members(buf@, (n - i - 1) as nat));
        }
        acc.push(x);
        assert(names_view(acc@) =~= before.push(x@));
        i = i + 1;
    }
    assert(names_view(acc@) + Seq::empty() =~= names_view(acc@));
    Ok(acc)
}

/// Reads `n` items one after the other (see [`m_variants`]).
fn read_variants(buf: &mut &[u8], n: u32) -> (res: Result<Vec<BrdbSchemaMetaVariant>, BrdbSchemaError>)
    ensures
        match m_variants(old(buf)@, n as nat) {
            Ok((v, rest)) => res matches Ok(x) && variants_view(x@) == v && final(buf)@ == rest,
            Err(e) => res matches Err(e2) && err_view(e2) == e,
        },
{
    let ghost s0 = buf@;
    let mut acc: Vec<BrdbSchemaMetaVariant> = Vec::new();
    let mut i: u32 = 0;
    assert(variants_view(acc@) =~= Seq::empty());
    assert(after(variants_view(acc@), m_variants(buf@, (n - i) as nat)) == m_variants(s0, n as nat)) by {
        if let Ok((xs, rest)) = m_variants(s0, n as nat) {
            assert(variants_view(acc@) + xs =~= xs);
        }
    }
    while i < n
        invariant
            i <= n,
            s0 == old(buf)@,
            m_variants(s0, n as nat) == after(variants_view(acc@), m_variants(buf@, (n - i) as nat)),
        decreases n - i,
    {
        let ghost before = variants_view(acc@);
        let ghost cur = buf@;
        let x = match read_variant(buf) {
            Ok(x) => x,
            Err(e) => {
                proof {
                    assert(m_variant(cur) is Err);
                    assert(m_variants(cur, (n - i) as nat) is Err);
                }
                return Err(e);
            },
        };
        proof {
            lemma_after_prepend(before, (x.0@, names_view(x.1@)), m_variants(buf@, (n - i - 1) as nat));
        }
        acc.push(x);
        assert(variants_view(acc@) =~= before.push((x.0@, names_view(x.1@))));
        i = i + 1;
    }
    assert(variants_view(acc@) + Seq::empty() =~= variants_view(acc@));
    Ok(acc)
}

/// Reads `n` items one after the other (see [`m_props`]).
fn read_props(buf: &mut &[u8], n: u32) -> (res: Result<Vec<(String, BrdbStructPropRaw)>, BrdbSchemaError>)
    ensures
        match m_props(old(buf)@, n as nat) {
            Ok((v, rest)) => res matches Ok(x) && props_view(x@) == v && final(buf)@ == rest,
            Err(e) => res matches Err(e2) && err_view(e2) == e,
        },
{
    let ghost s0 = buf@;
    let mut acc: Vec<(String, BrdbStructPropRaw)> = Vec::new();
    let mut i: u32 = 0;
    assert(props_view(acc@) =~= Seq::empty());
    assert(after(props_view(acc@), m_props(buf@, (n - i) as nat)) == m_props(s0, n as nat)) by {
        if let Ok((xs, rest)) = m_props(s0, n as nat) {
            assert(props_view(acc@) + xs =~= xs);
        }
    }
    while i < n
        invariant
            i <= n,
            s0 == old(buf)@,
            m_props(s0, n as nat) == after(props_view(acc@), m_props(buf@, (n - i) as nat)),
        decreases n - i,
    {
        let ghost before = props_view(acc@);
        let ghost cur = buf@;
        let x = match read_prop_entry(buf) {
            Ok(x) => x,
            Err(e) => {
                proof {
                    assert(m_prop_entry(cur) is Err);
                    assert(m_props(cur, (n - i) as nat) is Err);
                }
                return Err(e);
            },
        };
        proof {
            lemma_after_prepend(before, (x.0@, prop_view(x.1)), m_props(buf@, (n - i - 1) as nat));
        }
        acc.push(x);
        assert(props_view(acc@) =~= before.push((x.0@, prop_view(x.1))));
        i = i + 1;
    }
    assert(props_view(acc@) + Seq::empty() =~= props_view(acc@));
    Ok(acc)
}

/// Reads `n` items one after the other (see [`m_structs`]).
fn read_structs(buf: &mut &[u8], n: u32) -> (res: Result<Vec<BrdbSchemaMetaStruct>, BrdbSchemaError>)
    ensures
        match m_structs(old(buf)@, n as nat) {
            Ok((v, rest)) => res matches Ok(x) && structs_view(x@) == v && final(buf)@ == rest,
            Err(e) => res matches Err(e2) && err_view(e2) == e,
        },
{
    let ghost s0 = buf@;
    let mut acc: Vec<BrdbSchemaMetaStruct> = Vec::new();
    let mut i: u32 = 0;
    assert(structs_view(acc@) =~= Seq::empty());
    assert(after(structs_view(acc@), m_structs(buf@, (n - i) as nat)) == m_structs(s0, n as nat)) by {
        if let Ok((xs, rest)) = m_structs(s0, n as nat) {
            assert(structs_view(acc@) + xs =~= xs);
        }
    }
    while i < n
        invariant
            i <= n,
            s0 == old(buf)@,
            m_structs(s0, n as nat) == after(structs_view(acc@), m_structs(buf@, (n - i) as nat)),
        decreases n - i,
    {
        let ghost before = structs_view(acc@);
        let ghost cur = buf@;
        let x = match read_struct(buf) {
            Ok(x) => x,
            Err(e) => {
                proof {
                    assert(m_struct(cur) is Err);
                    assert(m_structs(cur, (n - i) as nat) is Err);
                }
                return Err(e);
            },
        };
        proof {
            lemma_after_prepend(before, (x.0@, props_view(x.1@)), m_structs(buf@, (n - i - 1) as nat));
        }
        acc.push(x);
        assert(structs_view(acc@) =~= before.push((x.0@, props_view(x.1@))));
        i = i + 1;
    }
    assert(structs_view(acc@) + Seq::empty() =~= structs_view(acc@));
    Ok(acc)
}

/// Reads the head of a MessagePack schema: its enums, its variants (none in
/// a 2-element schema) and its structs (see [`parse_schema_meta`]).
pub fn read_to_meta(buf: &mut &[u8]) -> (res: Result<
    (Vec<BrdbSchemaMetaEnum>, Vec<BrdbSchemaMetaVariant>, Vec<BrdbSchemaMetaStruct>),
    BrdbSchemaError,
>)
    ensures
        match parse_schema_meta(old(buf)@) {
            Ok((m, rest)) => res matches Ok(v) && meta_view(v) == m && final(buf)@ == rest,
            Err(e) => res matches Err(e2) && err_view(e2) == e,
        },
{
    let header = match mp_read_array_len(buf) {
        Some(h) => h,
        None => {
            return Err(BrdbSchemaError::RmpValueReadError);
        },
    };
    if header != 2 && header != 3 {
        return Err(BrdbSchemaError::InvalidHeader(header));
    }
    let has_variants = header == 3;
    let num_enums = match mp_read_map_len(buf) {
        Some(n) => n,
        None => {
            return Err(BrdbSchemaError::RmpValueReadError);
        },
    };
    let enums = read_enums(buf, num_enums)?;
    let variants = if has_variants {
        let num_variants = match mp_read_map_len(buf) {
            Some(n) => n,
            None => {
                return Err(BrdbSchemaError::RmpValueReadError);
            },
        };
        read_variants(buf, num_variants)?
    } else {
        let v: Vec<BrdbSchemaMetaVariant> = Vec::new();
        assert(variants_view(v@) =~= Seq::empty());
        v
    };
    let num_structs = match mp_read_map_len(buf) {
        Some(n) => n,
        None => {
            return Err(BrdbSchemaError::RmpValueReadError);
        },
    };
    let structs = read_structs(buf, num_structs)?;
    Ok((enums, variants, structs))
}

} // verus!
