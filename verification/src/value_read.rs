//! Reading values by a schema: the type names of the schema decide how the
//! MessagePack (or, in flat arrays, little-endian) bytes are taken apart.
//! A float slot gives what it stores: an integer, or the bits of a 32- or
//! 64-bit float; turning that into a float is left to the caller.
use vstd::prelude::*;
use vstd::utf8::{encode_utf8, encode_utf8_decode_utf8, encode_utf8_valid_utf8};

use crate::errors::BrdbSchemaError;
use crate::flat::{
    read_flat_i16, read_flat_i32, read_flat_i64, read_flat_i8, read_flat_u16, read_flat_u32,
    read_flat_u64, read_flat_u8,
};
use crate::le::{
    take_bytes, i16_from_le, i32_from_le, i64_from_le, i8_of_bits, u16_from_le, u32_from_le, u64_from_le,
};
use crate::mp_int::{m_uint, read_uint};
use crate::msgpack::{
    be_bytes, lemma_be_bytes, mp_str_len, str_header, be_nat, mp_array_len, mp_bin_len, mp_read_array_len, mp_read_bin_len, mp_read_bool,
    mp_read_data_i16, mp_read_data_i32, mp_read_data_i8, mp_read_data_u16, mp_read_data_u32,
    mp_read_data_u64, mp_read_data_u8, mp_read_marker, twos,
};
use crate::schema_meta::{
    err_view, m_bytes, m_int, m_str, read_int, read_owned_str, BrdbStructPropRaw, MParsed, MetaErr,
};
use crate::model::str_eq;
use crate::mp_int::{lemma_p256_values, int_bytes, lemma_int_roundtrip, lemma_u8_read_uint, lemma_uint_read_uint, u8_bytes, uint_bytes};
use crate::value::{
    bool_bytes, f64_bytes, F64Val, is_builtin, lemma_builtin_names, lemma_position_of, named_wire, ok, position_of, str_out,
    prop_out, props_out, value_out, wire_member, wire_payload, ValueModel, WireModel, depth_of, find_named, first_named, flat_size, flat_size_of, lemma_first_named, type_depth, SchemaModel,
};

verus! {

/// What a float slot stores.
#[derive(Clone, Copy, Debug, PartialEq)]
pub enum StoredNum {
    Int(i64),
    F32Bits(u32),
    F64Bits(u64),
}

/// A wire graph variant of the old schemas, as read.
#[derive(Debug)]
pub enum WireRead {
    Number(StoredNum),
    Int(i64),
    Bool(bool),
    /// An asset reference by index; `None` is a null reference.
    Object(Option<usize>),
    Exec,
}

/// A value as read by a schema.
#[derive(Debug)]
pub enum ReadValue {
    Bool(bool),
    U8(u8),
    U16(u16),
    U32(u32),
    U64(u64),
    I8(i8),
    I16(i16),
    I32(i32),
    I64(i64),
    F32(StoredNum),
    F64(StoredNum),
    Str(String),
    Asset(Option<usize>),
    Enum(u64),
    /// A struct: its type name and its properties in the schema's order.
    Struct(String, Vec<(String, ReadValue)>),
    Array(Vec<ReadValue>),
    FlatArray(Vec<ReadValue>),
    MapOf(Vec<(ReadValue, ReadValue)>),
    Wire(WireRead),
}

/// A value as read, with names and strings as characters.
pub enum ReadView {
    Bool(bool),
    U8(u8),
    U16(u16),
    U32(u32),
    U64(u64),
    I8(i8),
    I16(i16),
    I32(i32),
    I64(i64),
    F32(StoredNum),
    F64(StoredNum),
    Str(Seq<char>),
    Asset(Option<usize>),
    Enum(u64),
    Struct(Seq<char>, Seq<(Seq<char>, ReadView)>),
    Array(Seq<ReadView>),
    FlatArray(Seq<ReadView>),
    MapOf(Seq<(ReadView, ReadView)>),
    Wire(WireRead),
}

pub open spec fn read_view(v: ReadValue) -> ReadView
    decreases v,
{
    match v {
        ReadValue::Bool(b) => ReadView::Bool(b),
        ReadValue::U8(x) => ReadView::U8(x),
        ReadValue::U16(x) => ReadView::U16(x),
        ReadValue::U32(x) => ReadView::U32(x),
        ReadValue::U64(x) => ReadView::U64(x),
        ReadValue::I8(x) => ReadView::I8(x),
        ReadValue::I16(x) => ReadView::I16(x),
        ReadValue::I32(x) => ReadView::I32(x),
        ReadValue::I64(x) => ReadView::I64(x),
        ReadValue::F32(n) => ReadView::F32(n),
        ReadValue::F64(n) => ReadView::F64(n),
        ReadValue::Str(s) => ReadView::Str(s@),
        ReadValue::Asset(a) => ReadView::Asset(a),
        ReadValue::Enum(e) => ReadView::Enum(e),
        ReadValue::Struct(n, fs) => ReadView::Struct(n@, fields_view(fs@)),
        ReadValue::Array(xs) => ReadView::Array(values_view(xs@)),
        ReadValue::FlatArray(xs) => ReadView::FlatArray(values_view(xs@)),
        ReadValue::MapOf(ps) => ReadView::MapOf(pairs_view(ps@)),
        ReadValue::Wire(w) => ReadView::Wire(w),
    }
}

pub open spec fn fields_view(fs: Seq<(String, ReadValue)>) -> Seq<(Seq<char>, ReadView)>
    decreases fs,
{
    if fs.len() == 0 {
        seq![]
    } else {
        seq![(fs[0].0@, read_view(fs[0].1))] + fields_view(fs.drop_first())
    }
}

pub open spec fn values_view(xs: Seq<ReadValue>) -> Seq<ReadView>
    decreases xs,
{
    if xs.len() == 0 {
        seq![]
    } else {
        seq![read_view(xs[0])] + values_view(xs.drop_first())
    }
}

pub open spec fn pairs_view(ps: Seq<(ReadValue, ReadValue)>) -> Seq<(ReadView, ReadView)>
    decreases ps,
{
    if ps.len() == 0 {
        seq![]
    } else {
        seq![(read_view(ps[0].0), read_view(ps[0].1))] + pairs_view(ps.drop_first())
    }
}

/// A MessagePack boolean.
pub open spec fn m_bool(s: Seq<u8>) -> MParsed<bool> {
    if s.len() > 0 && s[0] == 0xc3 {
        Ok((true, s.skip(1)))
    } else if s.len() > 0 && s[0] == 0xc2 {
        Ok((false, s.skip(1)))
    } else {
        Err(MetaErr::ValueRead)
    }
}

/// The `k`-byte big-endian data after a marker, as a stored number.
pub open spec fn m_data(r: Seq<u8>, k: nat, f: spec_fn(nat) -> StoredNum) -> MParsed<StoredNum> {
    match m_bytes(r, k) {
        Ok((v, r2)) => Ok((f(v), r2)),
        Err(e) => Err(e),
    }
}

/// What a 32-bit float slot takes: a fixint, an 8- or 16-bit integer, or a
/// 32-bit float.
pub open spec fn m_num32(s: Seq<u8>) -> MParsed<StoredNum> {
    if s.len() == 0 {
        Err(MetaErr::MarkerRead)
    } else {
        let m = s[0];
        let r = s.skip(1);
        if m <= 0x7f {
            Ok((StoredNum::Int(m as i64), r))
        } else if m >= 0xe0 {
            Ok((StoredNum::Int((m - 256) as i64), r))
        } else if m == 0xd0 {
            m_data(r, 1, |v: nat| StoredNum::Int(twos(v, 1) as i64))
        } else if m == 0xd1 {
            m_data(r, 2, |v: nat| StoredNum::Int(twos(v, 2) as i64))
        } else if m == 0xcc {
            m_data(r, 1, |v: nat| StoredNum::Int(v as i64))
        } else if m == 0xcd {
            m_data(r, 2, |v: nat| StoredNum::Int(v as i64))
        } else if m == 0xca {
            m_data(r, 4, |v: nat| StoredNum::F32Bits(v as u32))
        } else {
            Err(MetaErr::MarkerRead)
        }
    }
}

/// What a 64-bit float slot takes: a fixint, an 8-, 16- or 32-bit integer,
/// or a 32- or 64-bit float.
pub open spec fn m_num64(s: Seq<u8>) -> MParsed<StoredNum> {
    if s.len() == 0 {
        Err(MetaErr::MarkerRead)
    } else {
        let m = s[0];
        let r = s.skip(1);
        if m <= 0x7f {
            Ok((StoredNum::Int(m as i64), r))
        } else if m >= 0xe0 {
            Ok((StoredNum::Int((m - 256) as i64), r))
        } else if m == 0xd0 {
            m_data(r, 1, |v: nat| StoredNum::Int(twos(v, 1) as i64))
        } else if m == 0xd1 {
            m_data(r, 2, |v: nat| StoredNum::Int(twos(v, 2) as i64))
        } else if m == 0xd2 {
            m_data(r, 4, |v: nat| StoredNum::Int(twos(v, 4) as i64))
        } else if m == 0xcc {
            m_data(r, 1, |v: nat| StoredNum::Int(v as i64))
        } else if m == 0xcd {
            m_data(r, 2, |v: nat| StoredNum::Int(v as i64))
        } else if m == 0xce {
            m_data(r, 4, |v: nat| StoredNum::Int(v as i64))
        } else if m == 0xca {
            m_data(r, 4, |v: nat| StoredNum::F32Bits(v as u32))
        } else if m == 0xcb {
            m_data(r, 8, |v: nat| StoredNum::F64Bits(v as u64))
        } else {
            Err(MetaErr::MarkerRead)
        }
    }
}

/// What reading gives: the value and the rest of the input, or the error;
/// `None` where the types of the schema contain themselves with no byte
/// read on the way.
pub type RRes = Option<Result<(ReadView, Seq<u8>), MetaErr>>;

pub type RList<T> = Option<Result<(Seq<T>, Seq<u8>), MetaErr>>;

pub open spec fn r_ok(v: ReadView, rest: Seq<u8>) -> RRes {
    Some(Ok((v, rest)))
}

pub open spec fn r_err(e: MetaErr) -> RRes {
    Some(Err(e))
}

/// Lifts a MessagePack parse into a read value.
pub open spec fn r_map<T>(p: MParsed<T>, f: spec_fn(T) -> ReadView) -> RRes {
    match p {
        Ok((x, rest)) => r_ok(f(x), rest),
        Err(e) => r_err(e),
    }
}

/// Whether the schema knows the name: a type, property, member or enum
/// value name, or the type of a property.
pub open spec fn interned(sch: SchemaModel, n: Seq<char>) -> bool {
    ||| exists|i: int| 0 <= i < sch.enums@.len() && (#[trigger] sch.enums@[i]).0@ == n
    ||| exists|i: int, j: int|
        0 <= i < sch.enums@.len() && 0 <= j < sch.enums@[i].1@.len() && (#[trigger] sch.enums@[i].1@[j]).0@
            == n
    ||| exists|i: int| 0 <= i < sch.variants@.len() && (#[trigger] sch.variants@[i]).0@ == n
    ||| exists|i: int, j: int|
        0 <= i < sch.variants@.len() && 0 <= j < sch.variants@[i].1@.len() && (
        #[trigger] sch.variants@[i].1@[j])@ == n
    ||| exists|i: int| 0 <= i < sch.structs@.len() && (#[trigger] sch.structs@[i]).0@ == n
    ||| exists|i: int, j: int|
        0 <= i < sch.structs@.len() && 0 <= j < sch.structs@[i].1@.len() && prop_names(
            #[trigger] sch.structs@[i].1@[j],
            n,
        )
}

/// Whether `n` is the name of the property or a type that it names.
pub open spec fn prop_names(p: (String, BrdbStructPropRaw), n: Seq<char>) -> bool {
    p.0@ == n || match p.1 {
        BrdbStructPropRaw::Type(t) => t@ == n,
        BrdbStructPropRaw::Array(t) => t@ == n,
        BrdbStructPropRaw::FlatArray(t) => t@ == n,
        BrdbStructPropRaw::MapOf(k, v) => k@ == n || v@ == n,
    }
}

pub open spec fn object_of(id: i64) -> Option<usize> {
    if id < 0 {
        None
    } else {
        Some(id as usize)
    }
}

/// A value of type `ty` read from `s`; `assets` is how many external asset
/// references the world has.
pub open spec fn p_type(sch: SchemaModel, assets: nat, ty: Seq<char>, s: Seq<u8>, fuel: nat) -> RRes
    decreases fuel, 2nat, 0nat,
{
    if ty == "bool"@ {
        r_map(m_bool(s), |b: bool| ReadView::Bool(b))
    } else if ty == "u8"@ {
        r_map(m_uint(s), |x: u64| ReadView::U8(x as u8))
    } else if ty == "u16"@ {
        r_map(m_uint(s), |x: u64| ReadView::U16(x as u16))
    } else if ty == "u32"@ {
        r_map(m_uint(s), |x: u64| ReadView::U32(x as u32))
    } else if ty == "u64"@ {
        r_map(m_uint(s), |x: u64| ReadView::U64(x))
    } else if ty == "i8"@ {
        r_map(m_int(s), |x: i64| ReadView::I8(x as i8))
    } else if ty == "i16"@ {
        r_map(m_int(s), |x: i64| ReadView::I16(x as i16))
    } else if ty == "i32"@ {
        r_map(m_int(s), |x: i64| ReadView::I32(x as i32))
    } else if ty == "i64"@ {
        r_map(m_int(s), |x: i64| ReadView::I64(x))
    } else if ty == "f32"@ {
        r_map(m_num32(s), |n: StoredNum| ReadView::F32(n))
    } else if ty == "f64"@ {
        r_map(m_num64(s), |n: StoredNum| ReadView::F64(n))
    } else if ty == "str"@ || ty == "bundle_path_ref"@ {
        r_map(m_str(s), |t: Seq<char>| ReadView::Str(t))
    } else if ty == "wire_graph_variant"@ {
        match m_uint(s) {
            Err(e) => r_err(e),
            Ok((tag, r)) => if tag == 0 {
                r_map(m_num64(r), |n: StoredNum| ReadView::Wire(WireRead::Number(n)))
            } else if tag == 1 {
                r_map(m_int(r), |i: i64| ReadView::Wire(WireRead::Int(i)))
            } else if tag == 2 {
                r_map(m_bool(r), |b: bool| ReadView::Wire(WireRead::Bool(b)))
            } else if tag == 3 {
                r_map(m_int(r), |i: i64| ReadView::Wire(WireRead::Object(object_of(i))))
            } else if tag == 4 {
                r_ok(ReadView::Wire(WireRead::Exec), r)
            } else {
                r_err(MetaErr::UnknownWireVariant((tag as usize) as nat))
            },
        }
    } else if ty == "wire_graph_prim_math_variant"@ {
        match m_uint(s) {
            Err(e) => r_err(e),
            Ok((tag, r)) => if tag == 0 {
                r_map(m_num64(r), |n: StoredNum| ReadView::Wire(WireRead::Number(n)))
            } else if tag == 1 {
                r_map(m_int(r), |i: i64| ReadView::Wire(WireRead::Int(i)))
            } else {
                r_err(MetaErr::UnknownWireVariant((tag as usize) as nat))
            },
        }
    } else if ty == "class"@ || ty == "object"@ || ty == "weak_object"@ {
        match m_int(s) {
            Err(e) => r_err(e),
            Ok((id, r)) => if id < 0 {
                r_ok(ReadView::Asset(None), r)
            } else if assets <= (id as usize) {
                r_err(MetaErr::UnknownAsset(ty, (id as usize) as nat))
            } else {
                r_ok(ReadView::Asset(Some(id as usize)), r)
            },
        }
    } else {
        match first_named(sch.variants@, ty) {
            Some(k) => match m_uint(s) {
                Err(e) => r_err(e),
                Ok((tag, r)) => if 0 <= k < sch.variants@.len() && (tag as usize) < sch.variants@[k].1@.len() {
                    if fuel == 0 {
                        None
                    } else {
                        p_type(sch, assets, sch.variants@[k].1@[(tag as usize) as int]@, r, (fuel - 1) as nat)
                    }
                } else {
                    r_err(MetaErr::UnknownWireVariant((tag as usize) as nat))
                },
            },
            None => if interned(sch, ty) {
                p_named(sch, assets, ty, s, fuel)
            } else {
                r_err(MetaErr::UnknownType(ty))
            },
        }
    }
}

/// A struct or an enum of the schema.
pub open spec fn p_named(sch: SchemaModel, assets: nat, ty: Seq<char>, s: Seq<u8>, fuel: nat) -> RRes
    decreases fuel, 1nat, 0nat,
{
    match first_named(sch.structs@, ty) {
        Some(k) => if 0 <= k < sch.structs@.len() {
            match p_props(sch, assets, sch.structs@[k].1@, s, fuel) {
                None => None,
                Some(Err(e)) => Some(Err(e)),
                Some(Ok((fs, r))) => r_ok(ReadView::Struct(ty, fs), r),
            }
        } else {
            None
        },
        None => match first_named(sch.enums@, ty) {
            Some(k) => match m_uint(s) {
                Err(e) => r_err(e),
                Ok((v, r)) => if 0 <= k < sch.enums@.len() && sch.enums@[k].1@.len() <= v {
                    r_err(MetaErr::EnumIndex(ty, v))
                } else {
                    r_ok(ReadView::Enum(v), r)
                },
            },
            None => r_err(MetaErr::UnknownSchemaType(ty)),
        },
    }
}

/// The properties of a struct, in the schema's order.
pub open spec fn p_props(sch: SchemaModel, assets: nat, ps: Seq<(String, BrdbStructPropRaw)>, s: Seq<u8>, fuel: nat) -> RList<
    (Seq<char>, ReadView),
>
    decreases fuel, 0nat, ps.len(),
{
    if ps.len() == 0 {
        Some(Ok((seq![], s)))
    } else {
        match p_prop(sch, assets, ps[0].1, s, fuel) {
            None => None,
            Some(Err(e)) => Some(Err(e)),
            Some(Ok((v, r))) => match p_props(sch, assets, ps.drop_first(), r, fuel) {
                None => None,
                Some(Err(e)) => Some(Err(e)),
                Some(Ok((vs, r2))) => Some(Ok((seq![(ps[0].0@, v)] + vs, r2))),
            },
        }
    }
}

pub open spec fn p_prop(sch: SchemaModel, assets: nat, p: BrdbStructPropRaw, s: Seq<u8>, fuel: nat) -> RRes
    decreases fuel, 0nat, 0nat,
{
    if fuel == 0 {
        None
    } else {
        match p {
            BrdbStructPropRaw::Type(t) => p_type(sch, assets, t@, s, (fuel - 1) as nat),
            BrdbStructPropRaw::Array(t) => match mp_array_len(s) {
                None => r_err(MetaErr::ValueRead),
                Some((n, k)) => match p_items(sch, assets, t@, n, s.skip(k), (fuel - 1) as nat) {
                    None => None,
                    Some(Err(e)) => Some(Err(e)),
                    Some(Ok((xs, r))) => r_ok(ReadView::Array(xs), r),
                },
            },
            BrdbStructPropRaw::FlatArray(t) => match mp_bin_len(s) {
                None => r_err(MetaErr::ValueRead),
                Some((n, k)) => {
                    let rest = s.skip(k);
                    if rest.len() < n {
                        r_err(MetaErr::Eof)
                    } else {
                        match flat_size(sch, t@, type_depth(sch)) {
                            None => None,
                            Some(size) => if size == 0 {
                                r_err(MetaErr::InvalidFlat(t@))
                            } else if n % size != 0 {
                                r_err(MetaErr::FlatDataSize(t@, n, size))
                            } else {
                                match p_flat_items(sch, t@, n / size, rest.take(n as int), type_depth(sch)) {
                                    None => None,
                                    Some(Err(e)) => Some(Err(e)),
                                    Some(Ok((xs, _))) => r_ok(ReadView::FlatArray(xs), rest.skip(n as int)),
                                }
                            },
                        }
                    }
                },
            },
            BrdbStructPropRaw::MapOf(kt, vt) => match m_uint(s) {
                Err(e) => r_err(e),
                Ok((n, r)) => match p_pairs(sch, assets, kt@, vt@, n as nat, r, (fuel - 1) as nat) {
                    None => None,
                    Some(Err(e)) => Some(Err(e)),
                    Some(Ok((ps, r2))) => r_ok(ReadView::MapOf(ps), r2),
                },
            },
        }
    }
}

/// `n` values of type `t`, one after another.
pub open spec fn p_items(sch: SchemaModel, assets: nat, t: Seq<char>, n: nat, s: Seq<u8>, fuel: nat) -> RList<ReadView>
    decreases fuel, 3nat, n,
{
    if n == 0 {
        Some(Ok((seq![], s)))
    } else {
        match p_type(sch, assets, t, s, fuel) {
            None => None,
            Some(Err(e)) => Some(Err(e)),
            Some(Ok((v, r))) => match p_items(sch, assets, t, (n - 1) as nat, r, fuel) {
                None => None,
                Some(Err(e)) => Some(Err(e)),
                Some(Ok((vs, r2))) => Some(Ok((seq![v] + vs, r2))),
            },
        }
    }
}

/// `n` pairs of a key of type `kt` and a value of type `vt`, both structs or
/// enums of the schema.
pub open spec fn p_pairs(sch: SchemaModel, assets: nat, kt: Seq<char>, vt: Seq<char>, n: nat, s: Seq<u8>, fuel: nat) -> RList<
    (ReadView, ReadView),
>
    decreases fuel, 3nat, n,
{
    if n == 0 {
        Some(Ok((seq![], s)))
    } else {
        match p_named(sch, assets, kt, s, fuel) {
            None => None,
            Some(Err(e)) => Some(Err(e)),
            Some(Ok((k, r))) => match p_named(sch, assets, vt, r, fuel) {
                None => None,
                Some(Err(e)) => Some(Err(e)),
                Some(Ok((v, r2))) => match p_pairs(sch, assets, kt, vt, (n - 1) as nat, r2, fuel) {
                    None => None,
                    Some(Err(e)) => Some(Err(e)),
                    Some(Ok((ps, r3))) => Some(Ok((seq![(k, v)] + ps, r3))),
                },
            },
        }
    }
}

/// `k` bytes of flat data decoded by `f`, or the end of the input.
pub open spec fn p_fixed(s: Seq<u8>, k: nat, f: spec_fn(Seq<u8>) -> ReadView) -> RRes {
    if s.len() < k {
        r_err(MetaErr::Eof)
    } else {
        r_ok(f(s.take(k as int)), s.skip(k as int))
    }
}

/// A value of type `ty` laid out flat.
pub open spec fn p_flat(sch: SchemaModel, ty: Seq<char>, s: Seq<u8>, fuel: nat) -> RRes
    decreases fuel, 1nat, 0nat,
{
    if ty == "u8"@ {
        p_fixed(s, 1, |b: Seq<u8>| ReadView::U8(b[0]))
    } else if ty == "u16"@ {
        p_fixed(s, 2, |b: Seq<u8>| ReadView::U16(u16_from_le(b)))
    } else if ty == "u32"@ {
        p_fixed(s, 4, |b: Seq<u8>| ReadView::U32(u32_from_le(b)))
    } else if ty == "u64"@ {
        p_fixed(s, 8, |b: Seq<u8>| ReadView::U64(u64_from_le(b)))
    } else if ty == "i8"@ {
        p_fixed(s, 1, |b: Seq<u8>| ReadView::I8(i8_of_bits(b[0])))
    } else if ty == "i16"@ {
        p_fixed(s, 2, |b: Seq<u8>| ReadView::I16(i16_from_le(b)))
    } else if ty == "i32"@ {
        p_fixed(s, 4, |b: Seq<u8>| ReadView::I32(i32_from_le(b)))
    } else if ty == "i64"@ {
        p_fixed(s, 8, |b: Seq<u8>| ReadView::I64(i64_from_le(b)))
    } else if ty == "f32"@ {
        p_fixed(s, 4, |b: Seq<u8>| ReadView::F32(StoredNum::F32Bits(u32_from_le(b))))
    } else if ty == "f64"@ {
        p_fixed(s, 8, |b: Seq<u8>| ReadView::F64(StoredNum::F64Bits(u64_from_le(b))))
    } else {
        match first_named(sch.structs@, ty) {
            Some(k) => if 0 <= k < sch.structs@.len() && fuel > 0 {
                match p_flat_props(sch, sch.structs@[k].1@, s, (fuel - 1) as nat) {
                    None => None,
                    Some(Err(e)) => Some(Err(e)),
                    Some(Ok((fs, r))) => r_ok(ReadView::Struct(ty, fs), r),
                }
            } else {
                None
            },
            None => r_err(MetaErr::InvalidFlat(ty)),
        }
    }
}

/// How a property's type is shown: `T`, `T[]`, `T[flat]` or `{K: V}`.
pub open spec fn prop_text(p: BrdbStructPropRaw) -> Seq<char> {
    match p {
        BrdbStructPropRaw::Type(t) => t@,
        BrdbStructPropRaw::Array(t) => t@ + "[]"@,
        BrdbStructPropRaw::FlatArray(t) => t@ + "[flat]"@,
        BrdbStructPropRaw::MapOf(k, v) => "{"@ + k@ + ": "@ + v@ + "}"@,
    }
}

pub open spec fn p_flat_props(sch: SchemaModel, ps: Seq<(String, BrdbStructPropRaw)>, s: Seq<u8>, fuel: nat) -> RList<
    (Seq<char>, ReadView),
>
    decreases fuel, 2nat, ps.len(),
{
    if ps.len() == 0 {
        Some(Ok((seq![], s)))
    } else {
        match ps[0].1 {
            BrdbStructPropRaw::Type(t) => match p_flat(sch, t@, s, fuel) {
                None => None,
                Some(Err(e)) => Some(Err(e)),
                Some(Ok((v, r))) => match p_flat_props(sch, ps.drop_first(), r, fuel) {
                    None => None,
                    Some(Err(e)) => Some(Err(e)),
                    Some(Ok((vs, r2))) => Some(Ok((seq![(ps[0].0@, v)] + vs, r2))),
                },
            },
            other => Some(Err(MetaErr::UnknownType("flat "@ + prop_text(other)))),
        }
    }
}

/// `n` flat values of type `ty`.
pub open spec fn p_flat_items(sch: SchemaModel, ty: Seq<char>, n: nat, s: Seq<u8>, fuel: nat) -> RList<ReadView>
    decreases n,
{
    if n == 0 {
        Some(Ok((seq![], s)))
    } else {
        match p_flat(sch, ty, s, fuel) {
            None => None,
            Some(Err(e)) => Some(Err(e)),
            Some(Ok((v, r))) => match p_flat_items(sch, ty, (n - 1) as nat, r, fuel) {
                None => None,
                Some(Err(e)) => Some(Err(e)),
                Some(Ok((vs, r2))) => Some(Ok((seq![v] + vs, r2))),
            },
        }
    }
}

/// Enough depth for reading `s`: where no type contains itself without a
/// byte read on the way, each byte read allows one more run through the
/// types.
pub open spec fn read_fuel(sch: SchemaModel, s: Seq<u8>) -> nat {
    if (s.len() + 1) * type_depth(sch) <= usize::MAX {
        (s.len() + 1) * type_depth(sch)
    } else {
        usize::MAX as nat
    }
}

/// Whether reading gave what `p` says: the value, with the input left at
/// the rest, or the error.
pub open spec fn rdone(p: RRes, r: Result<ReadValue, BrdbSchemaError>, after: Seq<u8>) -> bool {
    match p {
        Some(Ok((v, rest))) => r matches Ok(x) && read_view(x) == v && after == rest,
        Some(Err(e)) => r matches Err(x) && err_view(x) == e,
        None => false,
    }
}

fn read_bool(buf: &mut &[u8]) -> (res: Result<bool, BrdbSchemaError>)
    ensures
        match m_bool(old(buf)@) {
            Ok((v, rest)) => res == Ok::<bool, BrdbSchemaError>(v) && final(buf)@ == rest,
            Err(e) => res matches Err(e2) && err_view(e2) == e,
        },
{
    match mp_read_bool(buf) {
        Some(b) => Ok(b),
        None => Err(BrdbSchemaError::RmpValueReadError),
    }
}

fn read_num32(buf: &mut &[u8]) -> (res: Result<StoredNum, BrdbSchemaError>)
    ensures
        match m_num32(old(buf)@) {
            Ok((v, rest)) => res == Ok::<StoredNum, BrdbSchemaError>(v) && final(buf)@ == rest,
            Err(e) => res matches Err(e2) && err_view(e2) == e,
        },
{
    let ghost s = buf@;
    let m = match mp_read_marker(buf) {
        Some(m) => m,
        None => {
            return Err(BrdbSchemaError::RmpMarkerReadError);
        },
    };
    assert(buf@ == s.skip(1));
    if m <= 0x7f {
        Ok(StoredNum::Int(m as i64))
    } else if m >= 0xe0 {
        Ok(StoredNum::Int(m as i64 - 256))
    } else if m == 0xd0 {
        match mp_read_data_i8(buf) {
            Some(v) => Ok(StoredNum::Int(v as i64)),
            None => Err(BrdbSchemaError::RmpValueReadError),
        }
    } else if m == 0xd1 {
        match mp_read_data_i16(buf) {
            Some(v) => Ok(StoredNum::Int(v as i64)),
            None => Err(BrdbSchemaError::RmpValueReadError),
        }
    } else if m == 0xcc {
        match mp_read_data_u8(buf) {
            Some(v) => Ok(StoredNum::Int(v as i64)),
            None => Err(BrdbSchemaError::RmpValueReadError),
        }
    } else if m == 0xcd {
        match mp_read_data_u16(buf) {
            Some(v) => Ok(StoredNum::Int(v as i64)),
            None => Err(BrdbSchemaError::RmpValueReadError),
        }
    } else if m == 0xca {
        match mp_read_data_u32(buf) {
            Some(v) => Ok(StoredNum::F32Bits(v)),
            None => Err(BrdbSchemaError::RmpValueReadError),
        }
    } else {
        Err(BrdbSchemaError::RmpMarkerReadError)
    }
}

fn read_num64(buf: &mut &[u8]) -> (res: Result<StoredNum, BrdbSchemaError>)
    ensures
        match m_num64(old(buf)@) {
            Ok((v, rest)) => res == Ok::<StoredNum, BrdbSchemaError>(v) && final(buf)@ == rest,
            Err(e) => res matches Err(e2) && err_view(e2) == e,
        },
{
    let ghost s = buf@;
    let m = match mp_read_marker(buf) {
        Some(m) => m,
        None => {
            return Err(BrdbSchemaError::RmpMarkerReadError);
        },
    };
    assert(buf@ == s.skip(1));
    if m <= 0x7f {
        Ok(StoredNum::Int(m as i64))
    } else if m >= 0xe0 {
        Ok(StoredNum::Int(m as i64 - 256))
    } else if m == 0xd0 {
        match mp_read_data_i8(buf) {
            Some(v) => Ok(StoredNum::Int(v as i64)),
            None => Err(BrdbSchemaError::RmpValueReadError),
        }
    } else if m == 0xd1 {
        match mp_read_data_i16(buf) {
            Some(v) => Ok(StoredNum::Int(v as i64)),
            None => Err(BrdbSchemaError::RmpValueReadError),
        }
    } else if m == 0xd2 {
        match mp_read_data_i32(buf) {
            Some(v) => Ok(StoredNum::Int(v as i64)),
            None => Err(BrdbSchemaError::RmpValueReadError),
        }
    } else if m == 0xcc {
        match mp_read_data_u8(buf) {
            Some(v) => Ok(StoredNum::Int(v as i64)),
            None => Err(BrdbSchemaError::RmpValueReadError),
        }
    } else if m == 0xcd {
        match mp_read_data_u16(buf) {
            Some(v) => Ok(StoredNum::Int(v as i64)),
            None => Err(BrdbSchemaError::RmpValueReadError),
        }
    } else if m == 0xce {
        match mp_read_data_u32(buf) {
            Some(v) => Ok(StoredNum::Int(v as i64)),
            None => Err(BrdbSchemaError::RmpValueReadError),
        }
    } else if m == 0xca {
        match mp_read_data_u32(buf) {
            Some(v) => Ok(StoredNum::F32Bits(v)),
            None => Err(BrdbSchemaError::RmpValueReadError),
        }
    } else if m == 0xcb {
        match mp_read_data_u64(buf) {
            Some(v) => Ok(StoredNum::F64Bits(v)),
            None => Err(BrdbSchemaError::RmpValueReadError),
        }
    } else {
        Err(BrdbSchemaError::RmpMarkerReadError)
    }
}

/// `acc` in front of the list that `r` read.
pub open spec fn lprepend<T>(acc: Seq<T>, r: RList<T>) -> RList<T> {
    match r {
        Some(Ok((vs, rest))) => Some(Ok((acc + vs, rest))),
        other => other,
    }
}

proof fn lemma_lprepend<T>(acc: Seq<T>, x: T, q: RList<T>)
    ensures
        lprepend(acc, lprepend(seq![x], q)) == lprepend(acc.push(x), q),
{
    if let Some(Ok((vs, rest))) = q {
        assert(acc + (seq![x] + vs) =~= acc.push(x) + vs);
    }
}

proof fn lemma_lprepend_empty<T>(q: RList<T>)
    ensures
        lprepend(seq![], q) == q,
{
    if let Some(Ok((vs, rest))) = q {
        assert(seq![] + vs =~= vs);
    }
}

proof fn lemma_fields_view(fs: Seq<(String, ReadValue)>)
    ensures
        fields_view(fs).len() == fs.len(),
        forall|j: int| 0 <= j < fs.len() ==> #[trigger] fields_view(fs)[j] == (fs[j].0@, read_view(fs[j].1)),
    decreases fs.len(),
{
    if fs.len() > 0 {
        lemma_fields_view(fs.drop_first());
        assert forall|j: int| 0 < j < fs.len() implies fs[j] == fs.drop_first()[j - 1] by {}
    }
}

proof fn lemma_fields_view_push(fs: Seq<(String, ReadValue)>, e: (String, ReadValue))
    ensures
        fields_view(fs.push(e)) == fields_view(fs).push((e.0@, read_view(e.1))),
{
    lemma_fields_view(fs);
    lemma_fields_view(fs.push(e));
    assert(fields_view(fs.push(e)) =~= fields_view(fs).push((e.0@, read_view(e.1))));
}

proof fn lemma_values_view(xs: Seq<ReadValue>)
    ensures
        values_view(xs).len() == xs.len(),
        forall|j: int| 0 <= j < xs.len() ==> #[trigger] values_view(xs)[j] == read_view(xs[j]),
    decreases xs.len(),
{
    if xs.len() > 0 {
        lemma_values_view(xs.drop_first());
        assert forall|j: int| 0 < j < xs.len() implies xs[j] == xs.drop_first()[j - 1] by {}
    }
}

proof fn lemma_values_view_push(xs: Seq<ReadValue>, e: ReadValue)
    ensures
        values_view(xs.push(e)) == values_view(xs).push(read_view(e)),
{
    lemma_values_view(xs);
    lemma_values_view(xs.push(e));
    assert(values_view(xs.push(e)) =~= values_view(xs).push(read_view(e)));
}

proof fn lemma_pairs_view(ps: Seq<(ReadValue, ReadValue)>)
    ensures
        pairs_view(ps).len() == ps.len(),
        forall|j: int|
            0 <= j < ps.len() ==> #[trigger] pairs_view(ps)[j] == (read_view(ps[j].0), read_view(ps[j].1)),
    decreases ps.len(),
{
    if ps.len() > 0 {
        lemma_pairs_view(ps.drop_first());
        assert forall|j: int| 0 < j < ps.len() implies ps[j] == ps.drop_first()[j - 1] by {}
    }
}

proof fn lemma_pairs_view_push(ps: Seq<(ReadValue, ReadValue)>, e: (ReadValue, ReadValue))
    ensures
        pairs_view(ps.push(e)) == pairs_view(ps).push((read_view(e.0), read_view(e.1))),
{
    lemma_pairs_view(ps);
    lemma_pairs_view(ps.push(e));
    assert(pairs_view(ps.push(e)) =~= pairs_view(ps).push((read_view(e.0), read_view(e.1))));
}

#[verifier::truncate]
fn u64_as_usize(x: u64) -> (r: usize)
    ensures
        r == x as usize,
{
    x as usize
}

#[verifier::truncate]
fn i64_as_usize(x: i64) -> (r: usize)
    ensures
        r == x as usize,
{
    x as usize
}

#[verifier::truncate]
fn u64_as_u8(x: u64) -> (r: u8)
    ensures
        r == x as u8,
{
    x as u8
}

#[verifier::truncate]
fn u64_as_u16(x: u64) -> (r: u16)
    ensures
        r == x as u16,
{
    x as u16
}

#[verifier::truncate]
fn u64_as_u32(x: u64) -> (r: u32)
    ensures
        r == x as u32,
{
    x as u32
}

#[verifier::truncate]
fn i64_as_i8(x: i64) -> (r: i8)
    ensures
        r == x as i8,
{
    x as i8
}

#[verifier::truncate]
fn i64_as_i16(x: i64) -> (r: i16)
    ensures
        r == x as i16,
{
    x as i16
}

#[verifier::truncate]
fn i64_as_i32(x: i64) -> (r: i32)
    ensures
        r == x as i32,
{
    x as i32
}

fn object_of_id(id: i64) -> (r: Option<usize>)
    ensures
        r == object_of(id),
{
    if id < 0 {
        None
    } else {
        Some(i64_as_usize(id))
    }
}

fn string_eq(a: &String, b: &str) -> (r: bool)
    ensures
        r == (a@ == b@),
{
    str_eq(a.as_str(), b)
}

/// Whether the schema knows the name (see [`interned`]).
fn is_interned(sch: &SchemaModel, n: &str) -> (r: bool)
    ensures
        r == interned(*sch, n@),
{
    let mut i: usize = 0;
    while i < sch.enums.len()
        invariant
            i <= sch.enums@.len(),
            forall|a: int| 0 <= a < i ==> (#[trigger] sch.enums@[a]).0@ != n@,
            forall|a: int, b: int|
                0 <= a < i && 0 <= b < sch.enums@[a].1@.len() ==> (#[trigger] sch.enums@[a].1@[b]).0@ != n@,
        decreases sch.enums@.len() - i,
    {
        if string_eq(&sch.enums[i].0, n) {
            assert(sch.enums@[i as int].0@ == n@);
            return true;
        }
        let vals = &sch.enums[i].1;
        let mut j: usize = 0;
        while j < vals.len()
            invariant
                j <= vals@.len(),
                i < sch.enums@.len(),
                vals@ == sch.enums@[i as int].1@,
                forall|b: int| 0 <= b < j ==> (#[trigger] vals@[b]).0@ != n@,
            decreases vals@.len() - j,
        {
            if string_eq(&vals[j].0, n) {
                assert(sch.enums@[i as int].1@[j as int].0@ == n@);
                return true;
            }
            j = j + 1;
        }
        i = i + 1;
    }
    let mut i: usize = 0;
    while i < sch.variants.len()
        invariant
            i <= sch.variants@.len(),
            forall|a: int| 0 <= a < sch.enums@.len() ==> (#[trigger] sch.enums@[a]).0@ != n@,
            forall|a: int, b: int|
                0 <= a < sch.enums@.len() && 0 <= b < sch.enums@[a].1@.len() ==> (
                #[trigger] sch.enums@[a].1@[b]).0@ != n@,
            forall|a: int| 0 <= a < i ==> (#[trigger] sch.variants@[a]).0@ != n@,
            forall|a: int, b: int|
                0 <= a < i && 0 <= b < sch.variants@[a].1@.len() ==> (#[trigger] sch.variants@[a].1@[b])@ != n@,
        decreases sch.variants@.len() - i,
    {
        if string_eq(&sch.variants[i].0, n) {
            assert(sch.variants@[i as int].0@ == n@);
            return true;
        }
        let ms = &sch.variants[i].1;
        let mut j: usize = 0;
        while j < ms.len()
            invariant
                j <= ms@.len(),
                i < sch.variants@.len(),
                ms@ == sch.variants@[i as int].1@,
                forall|b: int| 0 <= b < j ==> (#[trigger] ms@[b])@ != n@,
            decreases ms@.len() - j,
        {
            if string_eq(&ms[j], n) {
                assert(sch.variants@[i as int].1@[j as int]@ == n@);
                return true;
            }
            j = j + 1;
        }
        i = i + 1;
    }
    let mut i: usize = 0;
    while i < sch.structs.len()
        invariant
            i <= sch.structs@.len(),
            forall|a: int| 0 <= a < sch.enums@.len() ==> (#[trigger] sch.enums@[a]).0@ != n@,
            forall|a: int, b: int|
                0 <= a < sch.enums@.len() && 0 <= b < sch.enums@[a].1@.len() ==> (
                #[trigger] sch.enums@[a].1@[b]).0@ != n@,
            forall|a: int| 0 <= a < sch.variants@.len() ==> (#[trigger] sch.variants@[a]).0@ != n@,
            forall|a: int, b: int|
                0 <= a < sch.variants@.len() && 0 <= b < sch.variants@[a].1@.len() ==> (
                #[trigger] sch.variants@[a].1@[b])@ != n@,
            forall|a: int| 0 <= a < i ==> (#[trigger] sch.structs@[a]).0@ != n@,
            forall|a: int, b: int|
                0 <= a < i && 0 <= b < sch.structs@[a].1@.len() ==> !prop_names(
                    #[trigger] sch.structs@[a].1@[b],
                    n@,
                ),
        decreases sch.structs@.len() - i,
    {
        if string_eq(&sch.structs[i].0, n) {
            assert(sch.structs@[i as int].0@ == n@);
            return true;
        }
        let ps = &sch.structs[i].1;
        let mut j: usize = 0;
        while j < ps.len()
            invariant
                j <= ps@.len(),
                i < sch.structs@.len(),
                ps@ == sch.structs@[i as int].1@,
                forall|b: int| 0 <= b < j ==> !prop_names(#[trigger] ps@[b], n@),
            decreases ps@.len() - j,
        {
            let hit = string_eq(&ps[j].0, n) || match &ps[j].1 {
                BrdbStructPropRaw::Type(t) => string_eq(t, n),
                BrdbStructPropRaw::Array(t) => string_eq(t, n),
                BrdbStructPropRaw::FlatArray(t) => string_eq(t, n),
                BrdbStructPropRaw::MapOf(k, v) => string_eq(k, n) || string_eq(v, n),
            };
            if hit {
                assert(prop_names(sch.structs@[i as int].1@[j as int], n@));
                return true;
            }
            j = j + 1;
        }
        i = i + 1;
    }
    false
}

pub open spec fn ldone<T, U>(p: RList<U>, r: Result<Vec<T>, BrdbSchemaError>, after: Seq<u8>, view: spec_fn(Seq<T>) -> Seq<U>) -> bool {
    match p {
        Some(Ok((vs, rest))) => r matches Ok(x) && view(x@) == vs && after == rest,
        Some(Err(e)) => r matches Err(x) && err_view(x) == e,
        None => false,
    }
}

fn unknown_wire(tag: u64) -> (e: BrdbSchemaError)
    ensures
        err_view(e) == MetaErr::UnknownWireVariant((tag as usize) as nat),
{
    BrdbSchemaError::UnknownWireVariant(u64_as_usize(tag))
}

#[verifier::rlimit(80)]
#[verifier::spinoff_prover]
fn read_type_f(sch: &SchemaModel, assets: usize, ty: &str, buf: &mut &[u8], fuel: usize) -> (r: Result<ReadValue, BrdbSchemaError>)
    requires
        p_type(*sch, assets as nat, ty@, old(buf)@, fuel as nat) is Some,
    ensures
        rdone(p_type(*sch, assets as nat, ty@, old(buf)@, fuel as nat), r, final(buf)@),
    decreases fuel, 2nat, 1nat,
{
    if str_eq(ty, "bool") {
        match read_bool(buf) {
            Ok(b) => Ok(ReadValue::Bool(b)),
            Err(e) => Err(e),
        }
    } else if str_eq(ty, "u8") {
        match read_uint(buf) {
            Ok(x) => Ok(ReadValue::U8(u64_as_u8(x))),
            Err(e) => Err(e),
        }
    } else if str_eq(ty, "u16") {
        match read_uint(buf) {
            Ok(x) => Ok(ReadValue::U16(u64_as_u16(x))),
            Err(e) => Err(e),
        }
    } else if str_eq(ty, "u32") {
        match read_uint(buf) {
            Ok(x) => Ok(ReadValue::U32(u64_as_u32(x))),
            Err(e) => Err(e),
        }
    } else if str_eq(ty, "u64") {
        match read_uint(buf) {
            Ok(x) => Ok(ReadValue::U64(x)),
            Err(e) => Err(e),
        }
    } else if str_eq(ty, "i8") {
        match read_int(buf) {
            Ok(x) => Ok(ReadValue::I8(i64_as_i8(x))),
            Err(e) => Err(e),
        }
    } else if str_eq(ty, "i16") {
        match read_int(buf) {
            Ok(x) => Ok(ReadValue::I16(i64_as_i16(x))),
            Err(e) => Err(e),
        }
    } else if str_eq(ty, "i32") {
        match read_int(buf) {
            Ok(x) => Ok(ReadValue::I32(i64_as_i32(x))),
            Err(e) => Err(e),
        }
    } else if str_eq(ty, "i64") {
        match read_int(buf) {
            Ok(x) => Ok(ReadValue::I64(x)),
            Err(e) => Err(e),
        }
    } else if str_eq(ty, "f32") {
        match read_num32(buf) {
            Ok(n) => Ok(ReadValue::F32(n)),
            Err(e) => Err(e),
        }
    } else if str_eq(ty, "f64") {
        match read_num64(buf) {
            Ok(n) => Ok(ReadValue::F64(n)),
            Err(e) => Err(e),
        }
    } else if str_eq(ty, "str") || str_eq(ty, "bundle_path_ref") {
        match read_owned_str(buf) {
            Ok(t) => Ok(ReadValue::Str(t)),
            Err(e) => Err(e),
        }
    } else if str_eq(ty, "wire_graph_variant") {
        let tag = match read_uint(buf) {
            Ok(t) => t,
            Err(e) => {
                return Err(e);
            },
        };
        if tag == 0 {
            match read_num64(buf) {
                Ok(n) => Ok(ReadValue::Wire(WireRead::Number(n))),
                Err(e) => Err(e),
            }
        } else if tag == 1 {
            match read_int(buf) {
                Ok(i) => Ok(ReadValue::Wire(WireRead::Int(i))),
                Err(e) => Err(e),
            }
        } else if tag == 2 {
            match read_bool(buf) {
                Ok(b) => Ok(ReadValue::Wire(WireRead::Bool(b))),
                Err(e) => Err(e),
            }
        } else if tag == 3 {
            match read_int(buf) {
                Ok(i) => Ok(ReadValue::Wire(WireRead::Object(object_of_id(i)))),
                Err(e) => Err(e),
            }
        } else if tag == 4 {
            Ok(ReadValue::Wire(WireRead::Exec))
        } else {
            Err(unknown_wire(tag))
        }
    } else if str_eq(ty, "wire_graph_prim_math_variant") {
        let tag = match read_uint(buf) {
            Ok(t) => t,
            Err(e) => {
                return Err(e);
            },
        };
        if tag == 0 {
            match read_num64(buf) {
                Ok(n) => Ok(ReadValue::Wire(WireRead::Number(n))),
                Err(e) => Err(e),
            }
        } else if tag == 1 {
            match read_int(buf) {
                Ok(i) => Ok(ReadValue::Wire(WireRead::Int(i))),
                Err(e) => Err(e),
            }
        } else {
            Err(unknown_wire(tag))
        }
    } else if str_eq(ty, "class") || str_eq(ty, "object") || str_eq(ty, "weak_object") {
        let id = match read_int(buf) {
            Ok(i) => i,
            Err(e) => {
                return Err(e);
            },
        };
        if id < 0 {
            Ok(ReadValue::Asset(None))
        } else if assets <= i64_as_usize(id) {
            Err(BrdbSchemaError::UnknownAsset(ty.to_owned(), i64_as_usize(id)))
        } else {
            Ok(ReadValue::Asset(Some(i64_as_usize(id))))
        }
    } else {
        read_schema_type(sch, assets, ty, buf, fuel)
    }
}

/// The types that the schema names: variants, then structs and enums.
#[verifier::rlimit(40)]
fn read_schema_type(sch: &SchemaModel, assets: usize, ty: &str, buf: &mut &[u8], fuel: usize) -> (r: Result<ReadValue, BrdbSchemaError>)
    requires
        !(ty@ == "bool"@ || ty@ == "u8"@ || ty@ == "u16"@ || ty@ == "u32"@ || ty@ == "u64"@ || ty@ == "i8"@
            || ty@ == "i16"@ || ty@ == "i32"@ || ty@ == "i64"@ || ty@ == "f32"@ || ty@ == "f64"@ || ty@
            == "str"@ || ty@ == "bundle_path_ref"@ || ty@ == "wire_graph_variant"@ || ty@
            == "wire_graph_prim_math_variant"@ || ty@ == "class"@ || ty@ == "object"@ || ty@
            == "weak_object"@),
        p_type(*sch, assets as nat, ty@, old(buf)@, fuel as nat) is Some,
    ensures
        rdone(p_type(*sch, assets as nat, ty@, old(buf)@, fuel as nat), r, final(buf)@),
    decreases fuel, 2nat, 0nat,
{
    match find_named(&sch.variants, ty) {
        Some(k) => {
            proof {
                lemma_first_named(sch.variants@, ty@);
            }
            let tag = match read_uint(buf) {
                Ok(t) => t,
                Err(e) => {
                    return Err(e);
                },
            };
            let t = u64_as_usize(tag);
            let members = &sch.variants[k].1;
            if t < members.len() {
                if fuel == 0 {
                    return Err(unknown_wire(tag));
                }
                read_type_f(sch, assets, members[t].as_str(), buf, fuel - 1)
            } else {
                Err(unknown_wire(tag))
            }
        },
        None => {
            if is_interned(sch, ty) {
                read_named_f(sch, assets, ty, buf, fuel)
            } else {
                Err(BrdbSchemaError::UnknownType(ty.to_owned()))
            }
        },
    }
}

fn read_named_f(sch: &SchemaModel, assets: usize, ty: &str, buf: &mut &[u8], fuel: usize) -> (r: Result<ReadValue, BrdbSchemaError>)
    requires
        p_named(*sch, assets as nat, ty@, old(buf)@, fuel as nat) is Some,
    ensures
        rdone(p_named(*sch, assets as nat, ty@, old(buf)@, fuel as nat), r, final(buf)@),
    decreases fuel, 1nat, 0nat,
{
    match find_named(&sch.structs, ty) {
        Some(k) => {
            proof {
                lemma_first_named(sch.structs@, ty@);
            }
            match read_props_f(sch, assets, &sch.structs[k].1, buf, fuel) {
                Ok(fs) => Ok(ReadValue::Struct(ty.to_owned(), fs)),
                Err(e) => Err(e),
            }
        },
        None => match find_named(&sch.enums, ty) {
            Some(k) => {
                proof {
                    lemma_first_named(sch.enums@, ty@);
                }
                let v = match read_uint(buf) {
                    Ok(v) => v,
                    Err(e) => {
                        return Err(e);
                    },
                };
                if (sch.enums[k].1.len() as u64) <= v {
                    Err(BrdbSchemaError::EnumIndexOutOfBounds(ty.to_owned(), v))
                } else {
                    Ok(ReadValue::Enum(v))
                }
            },
            None => Err(BrdbSchemaError::UnknownSchemaType(ty.to_owned())),
        },
    }
}

fn read_props_f(sch: &SchemaModel, assets: usize, ps: &Vec<(String, BrdbStructPropRaw)>, buf: &mut &[u8], fuel: usize) -> (r: Result<Vec<(String, ReadValue)>, BrdbSchemaError>)
    requires
        p_props(*sch, assets as nat, ps@, old(buf)@, fuel as nat) is Some,
    ensures
        ldone(
            p_props(*sch, assets as nat, ps@, old(buf)@, fuel as nat),
            r,
            final(buf)@,
            |x: Seq<(String, ReadValue)>| fields_view(x),
        ),
    decreases fuel, 0nat, ps@.len() + 1,
{
    let ghost total = p_props(*sch, assets as nat, ps@, buf@, fuel as nat);
    let mut out: Vec<(String, ReadValue)> = Vec::new();
    let mut i: usize = 0;
    assert(ps@.skip(0) =~= ps@);
    proof {
        lemma_lprepend_empty(total);
        assert(fields_view(out@) =~= seq![]);
    }
    while i < ps.len()
        invariant
            0 <= i <= ps@.len(),
            total == p_props(*sch, assets as nat, ps@, old(buf)@, fuel as nat),
            total is Some,
            total == lprepend(fields_view(out@), p_props(*sch, assets as nat, ps@.skip(i as int), buf@, fuel as nat)),
        decreases ps@.len() - i,
    {
        let ghost rest = ps@.skip(i as int);
        let ghost cur = buf@;
        assert(rest.drop_first() =~= ps@.skip(i + 1));
        assert(rest[0] == ps@[i as int]);
        let v = match read_prop_f(sch, assets, &ps[i].1, buf, fuel) {
            Ok(v) => v,
            Err(e) => {
                return Err(e);
            },
        };
        proof {
            lemma_fields_view_push(out@, (ps@[i as int].0, v));
            lemma_lprepend(
                fields_view(out@),
                (ps@[i as int].0@, read_view(v)),
                p_props(*sch, assets as nat, ps@.skip(i + 1), buf@, fuel as nat),
            );
        }
        out.push((ps[i].0.clone(), v));
        i = i + 1;
    }
    proof {
        assert(ps@.skip(i as int) =~= Seq::<(String, BrdbStructPropRaw)>::empty());
        let w = fields_view(out@);
        assert(w + seq![] =~= w);
    }
    Ok(out)
}

#[verifier::rlimit(60)]
#[verifier::spinoff_prover]
fn read_prop_f(sch: &SchemaModel, assets: usize, p: &BrdbStructPropRaw, buf: &mut &[u8], fuel: usize) -> (r: Result<ReadValue, BrdbSchemaError>)
    requires
        p_prop(*sch, assets as nat, *p, old(buf)@, fuel as nat) is Some,
    ensures
        rdone(p_prop(*sch, assets as nat, *p, old(buf)@, fuel as nat), r, final(buf)@),
    decreases fuel, 0nat, 0nat,
{
    if fuel == 0 {
        return Err(BrdbSchemaError::RmpValueReadError);
    }
    match p {
        BrdbStructPropRaw::Type(t) => read_type_f(sch, assets, t.as_str(), buf, fuel - 1),
        BrdbStructPropRaw::Array(t) => {
            let n = match mp_read_array_len(buf) {
                Some(n) => n,
                None => {
                    return Err(BrdbSchemaError::RmpValueReadError);
                },
            };
            match read_items_f(sch, assets, t.as_str(), n as u64, buf, fuel - 1) {
                Ok(xs) => Ok(ReadValue::Array(xs)),
                Err(e) => Err(e),
            }
        },
        BrdbStructPropRaw::FlatArray(t) => {
            let n = match mp_read_bin_len(buf) {
                Some(n) => n,
                None => {
                    return Err(BrdbSchemaError::RmpValueReadError);
                },
            };
            let ghost rest = buf@;
            let block = match take_bytes(buf, n as usize) {
                Some(b) => b,
                None => {
                    return Err(BrdbSchemaError::UnexpectedEof);
                },
            };
            let d = depth_of(sch);
            let size = match flat_size_of(sch, t.as_str(), d) {
                Some(z) => z,
                None => {
                    return Err(BrdbSchemaError::RmpValueReadError);
                },
            };
            if size == 0 {
                return Err(BrdbSchemaError::InvalidFlatType(t.clone()));
            }
            if (n as u64) % size != 0 {
                return Err(BrdbSchemaError::InvalidFlatDataSize(t.clone(), n as usize, size as usize));
            }
            let mut sub: &[u8] = block;
            match read_flat_items_f(sch, t.as_str(), (n as u64) / size, &mut sub, d) {
                Ok(xs) => Ok(ReadValue::FlatArray(xs)),
                Err(e) => Err(e),
            }
        },
        BrdbStructPropRaw::MapOf(kt, vt) => {
            let n = match read_uint(buf) {
                Ok(n) => n,
                Err(e) => {
                    return Err(e);
                },
            };
            match read_pairs_f(sch, assets, kt.as_str(), vt.as_str(), n, buf, fuel - 1) {
                Ok(ps) => Ok(ReadValue::MapOf(ps)),
                Err(e) => Err(e),
            }
        },
    }
}

fn read_items_f(sch: &SchemaModel, assets: usize, t: &str, n: u64, buf: &mut &[u8], fuel: usize) -> (r: Result<Vec<ReadValue>, BrdbSchemaError>)
    requires
        p_items(*sch, assets as nat, t@, n as nat, old(buf)@, fuel as nat) is Some,
    ensures
        ldone(
            p_items(*sch, assets as nat, t@, n as nat, old(buf)@, fuel as nat),
            r,
            final(buf)@,
            |x: Seq<ReadValue>| values_view(x),
        ),
    decreases fuel, 3nat, n,
{
    let ghost total = p_items(*sch, assets as nat, t@, n as nat, buf@, fuel as nat);
    let mut out: Vec<ReadValue> = Vec::new();
    let mut i: u64 = 0;
    proof {
        lemma_lprepend_empty(total);
        assert(values_view(out@) =~= seq![]);
    }
    while i < n
        invariant
            i <= n,
            total == p_items(*sch, assets as nat, t@, n as nat, old(buf)@, fuel as nat),
            total is Some,
            total == lprepend(values_view(out@), p_items(*sch, assets as nat, t@, (n - i) as nat, buf@, fuel as nat)),
        decreases n - i,
    {
        let v = match read_type_f(sch, assets, t, buf, fuel) {
            Ok(v) => v,
            Err(e) => {
                return Err(e);
            },
        };
        proof {
            lemma_values_view_push(out@, v);
            lemma_lprepend(
                values_view(out@),
                read_view(v),
                p_items(*sch, assets as nat, t@, (n - i - 1) as nat, buf@, fuel as nat),
            );
        }
        out.push(v);
        i = i + 1;
    }
    proof {
        let w = values_view(out@);
        assert(w + seq![] =~= w);
    }
    Ok(out)
}

fn read_pairs_f(sch: &SchemaModel, assets: usize, kt: &str, vt: &str, n: u64, buf: &mut &[u8], fuel: usize) -> (r: Result<Vec<(ReadValue, ReadValue)>, BrdbSchemaError>)
    requires
        p_pairs(*sch, assets as nat, kt@, vt@, n as nat, old(buf)@, fuel as nat) is Some,
    ensures
        ldone(
            p_pairs(*sch, assets as nat, kt@, vt@, n as nat, old(buf)@, fuel as nat),
            r,
            final(buf)@,
            |x: Seq<(ReadValue, ReadValue)>| pairs_view(x),
        ),
    decreases fuel, 3nat, n,
{
    let ghost total = p_pairs(*sch, assets as nat, kt@, vt@, n as nat, buf@, fuel as nat);
    let mut out: Vec<(ReadValue, ReadValue)> = Vec::new();
    let mut i: u64 = 0;
    proof {
        lemma_lprepend_empty(total);
        assert(pairs_view(out@) =~= seq![]);
    }
    while i < n
        invariant
            i <= n,
            total == p_pairs(*sch, assets as nat, kt@, vt@, n as nat, old(buf)@, fuel as nat),
            total is Some,
            total == lprepend(pairs_view(out@), p_pairs(*sch, assets as nat, kt@, vt@, (n - i) as nat, buf@, fuel as nat)),
        decreases n - i,
    {
        let k = match read_named_f(sch, assets, kt, buf, fuel) {
            Ok(v) => v,
            Err(e) => {
                return Err(e);
            },
        };
        let v = match read_named_f(sch, assets, vt, buf, fuel) {
            Ok(v) => v,
            Err(e) => {
                return Err(e);
            },
        };
        proof {
            lemma_pairs_view_push(out@, (k, v));
            lemma_lprepend(
                pairs_view(out@),
                (read_view(k), read_view(v)),
                p_pairs(*sch, assets as nat, kt@, vt@, (n - i - 1) as nat, buf@, fuel as nat),
            );
        }
        out.push((k, v));
        i = i + 1;
    }
    proof {
        let w = pairs_view(out@);
        assert(w + seq![] =~= w);
    }
    Ok(out)
}

#[verifier::rlimit(60)]
#[verifier::spinoff_prover]
fn read_flat_f(sch: &SchemaModel, ty: &str, buf: &mut &[u8], fuel: usize) -> (r: Result<ReadValue, BrdbSchemaError>)
    requires
        p_flat(*sch, ty@, old(buf)@, fuel as nat) is Some,
    ensures
        rdone(p_flat(*sch, ty@, old(buf)@, fuel as nat), r, final(buf)@),
    decreases fuel, 1nat, 0nat,
{
    if str_eq(ty, "u8") {
        match read_flat_u8(buf) {
            Ok(x) => Ok(ReadValue::U8(x)),
            Err(e) => Err(e),
        }
    } else if str_eq(ty, "u16") {
        match read_flat_u16(buf) {
            Ok(x) => Ok(ReadValue::U16(x)),
            Err(e) => Err(e),
        }
    } else if str_eq(ty, "u32") {
        match read_flat_u32(buf) {
            Ok(x) => Ok(ReadValue::U32(x)),
            Err(e) => Err(e),
        }
    } else if str_eq(ty, "u64") {
        match read_flat_u64(buf) {
            Ok(x) => Ok(ReadValue::U64(x)),
            Err(e) => Err(e),
        }
    } else if str_eq(ty, "i8") {
        match read_flat_i8(buf) {
            Ok(x) => Ok(ReadValue::I8(x)),
            Err(e) => Err(e),
        }
    } else if str_eq(ty, "i16") {
        match read_flat_i16(buf) {
            Ok(x) => Ok(ReadValue::I16(x)),
            Err(e) => Err(e),
        }
    } else if str_eq(ty, "i32") {
        match read_flat_i32(buf) {
            Ok(x) => Ok(ReadValue::I32(x)),
            Err(e) => Err(e),
        }
    } else if str_eq(ty, "i64") {
        match read_flat_i64(buf) {
            Ok(x) => Ok(ReadValue::I64(x)),
            Err(e) => Err(e),
        }
    } else if str_eq(ty, "f32") {
        match read_flat_u32(buf) {
            Ok(x) => Ok(ReadValue::F32(StoredNum::F32Bits(x))),
            Err(e) => Err(e),
        }
    } else if str_eq(ty, "f64") {
        match read_flat_u64(buf) {
            Ok(x) => Ok(ReadValue::F64(StoredNum::F64Bits(x))),
            Err(e) => Err(e),
        }
    } else {
        match find_named(&sch.structs, ty) {
            Some(k) => {
                proof {
                    lemma_first_named(sch.structs@, ty@);
                }
                if fuel == 0 {
                    return Err(BrdbSchemaError::InvalidFlatType(ty.to_owned()));
                }
                match read_flat_props_f(sch, &sch.structs[k].1, buf, fuel - 1) {
                    Ok(fs) => Ok(ReadValue::Struct(ty.to_owned(), fs)),
                    Err(e) => Err(e),
                }
            },
            None => Err(BrdbSchemaError::InvalidFlatType(ty.to_owned())),
        }
    }
}

fn prop_text_of(p: &BrdbStructPropRaw) -> (t: String)
    ensures
        t@ == prop_text(*p),
{
    match p {
        BrdbStructPropRaw::Type(t) => t.clone(),
        BrdbStructPropRaw::Array(t) => {
            let mut s = t.clone();
            s.append("[]");
            s
        },
        BrdbStructPropRaw::FlatArray(t) => {
            let mut s = t.clone();
            s.append("[flat]");
            s
        },
        BrdbStructPropRaw::MapOf(k, v) => {
            let mut s = "{".to_owned();
            s.append(k.as_str());
            s.append(": ");
            s.append(v.as_str());
            s.append("}");
            s
        },
    }
}

fn read_flat_props_f(sch: &SchemaModel, ps: &Vec<(String, BrdbStructPropRaw)>, buf: &mut &[u8], fuel: usize) -> (r: Result<Vec<(String, ReadValue)>, BrdbSchemaError>)
    requires
        p_flat_props(*sch, ps@, old(buf)@, fuel as nat) is Some,
    ensures
        ldone(p_flat_props(*sch, ps@, old(buf)@, fuel as nat), r, final(buf)@, |x: Seq<(String, ReadValue)>| fields_view(x)),
    decreases fuel, 2nat, ps@.len(),
{
    let ghost total = p_flat_props(*sch, ps@, buf@, fuel as nat);
    let mut out: Vec<(String, ReadValue)> = Vec::new();
    let mut i: usize = 0;
    assert(ps@.skip(0) =~= ps@);
    proof {
        lemma_lprepend_empty(total);
        assert(fields_view(out@) =~= seq![]);
    }
    while i < ps.len()
        invariant
            0 <= i <= ps@.len(),
            total == p_flat_props(*sch, ps@, old(buf)@, fuel as nat),
            total is Some,
            total == lprepend(fields_view(out@), p_flat_props(*sch, ps@.skip(i as int), buf@, fuel as nat)),
        decreases ps@.len() - i,
    {
        let ghost rest = ps@.skip(i as int);
        assert(rest.drop_first() =~= ps@.skip(i + 1));
        assert(rest[0] == ps@[i as int]);
        let v = match &ps[i].1 {
            BrdbStructPropRaw::Type(t) => match read_flat_f(sch, t.as_str(), buf, fuel) {
                Ok(v) => v,
                Err(e) => {
                    return Err(e);
                },
            },
            other => {
                let mut what = "flat ".to_owned();
                let t = prop_text_of(other);
                what.append(t.as_str());
                return Err(BrdbSchemaError::UnknownType(what));
            },
        };
        proof {
            lemma_fields_view_push(out@, (ps@[i as int].0, v));
            lemma_lprepend(
                fields_view(out@),
                (ps@[i as int].0@, read_view(v)),
                p_flat_props(*sch, ps@.skip(i + 1), buf@, fuel as nat),
            );
        }
        out.push((ps[i].0.clone(), v));
        i = i + 1;
    }
    proof {
        assert(ps@.skip(i as int) =~= Seq::<(String, BrdbStructPropRaw)>::empty());
        let w = fields_view(out@);
        assert(w + seq![] =~= w);
    }
    Ok(out)
}

fn read_flat_items_f(sch: &SchemaModel, ty: &str, n: u64, buf: &mut &[u8], fuel: usize) -> (r: Result<Vec<ReadValue>, BrdbSchemaError>)
    requires
        p_flat_items(*sch, ty@, n as nat, old(buf)@, fuel as nat) is Some,
    ensures
        ldone(p_flat_items(*sch, ty@, n as nat, old(buf)@, fuel as nat), r, final(buf)@, |x: Seq<ReadValue>| values_view(x)),
{
    let ghost total = p_flat_items(*sch, ty@, n as nat, buf@, fuel as nat);
    let mut out: Vec<ReadValue> = Vec::new();
    let mut i: u64 = 0;
    proof {
        lemma_lprepend_empty(total);
        assert(values_view(out@) =~= seq![]);
    }
    while i < n
        invariant
            i <= n,
            total == p_flat_items(*sch, ty@, n as nat, old(buf)@, fuel as nat),
            total is Some,
            total == lprepend(values_view(out@), p_flat_items(*sch, ty@, (n - i) as nat, buf@, fuel as nat)),
        decreases n - i,
    {
        let v = match read_flat_f(sch, ty, buf, fuel) {
            Ok(v) => v,
            Err(e) => {
                return Err(e);
            },
        };
        proof {
            lemma_values_view_push(out@, v);
            lemma_lprepend(
                values_view(out@),
                read_view(v),
                p_flat_items(*sch, ty@, (n - i - 1) as nat, buf@, fuel as nat),
            );
        }
        out.push(v);
        i = i + 1;
    }
    proof {
        let w = values_view(out@);
        assert(w + seq![] =~= w);
    }
    Ok(out)
}

fn fuel_for(sch: &SchemaModel, len: usize) -> (f: usize)
    ensures
        forall|s: Seq<u8>| s.len() == len ==> f == read_fuel(*sch, s),
{
    let d = depth_of(sch);
    assert(d >= 1);
    if len == usize::MAX {
        assert((len + 1) * d > usize::MAX) by (nonlinear_arith)
            requires
                d >= 1,
                len == usize::MAX,
        {}
        return usize::MAX;
    }
    let lp = len + 1;
    let q = usize::MAX / lp;
    let ghost m = usize::MAX as int;
    proof {
        vstd::arithmetic::div_mod::lemma_fundamental_div_mod(m, lp as int);
        vstd::arithmetic::div_mod::lemma_mod_pos_bound(m, lp as int);
    }
    if d <= q {
        assert(lp * d <= m) by (nonlinear_arith)
            requires
                lp >= 1,
                d <= q,
                m == lp * q + m % (lp as int),
                0 <= m % (lp as int) < lp,
        {}
        lp * d
    } else {
        assert(lp * d > m) by (nonlinear_arith)
            requires
                lp >= 1,
                d >= q + 1,
                m == lp * q + m % (lp as int),
                0 <= m % (lp as int) < lp,
        {}
        usize::MAX
    }
}

/// Reads a value of type `ty` of the schema `sch` (see [`p_type`]); the
/// world has `assets` external asset references. The input is required not
/// to send the reader through the types for ever (a struct that holds
/// itself, with no byte read on the way).
pub fn read_type(sch: &SchemaModel, assets: usize, ty: &str, buf: &mut &[u8]) -> (r: Result<ReadValue, BrdbSchemaError>)
    requires
        p_type(*sch, assets as nat, ty@, old(buf)@, read_fuel(*sch, old(buf)@)) is Some,
    ensures
        rdone(p_type(*sch, assets as nat, ty@, old(buf)@, read_fuel(*sch, old(buf)@)), r, final(buf)@),
{
    let fuel = fuel_for(sch, buf.len());
    assert(fuel == read_fuel(*sch, buf@));
    read_type_f(sch, assets, ty, buf, fuel)
}

/// The kind of a value, as errors name it.
pub open spec fn kind_name(v: ReadView) -> Seq<char> {
    match v {
        ReadView::Bool(_) => "bool"@,
        ReadView::U8(_) => "u8"@,
        ReadView::U16(_) => "u16"@,
        ReadView::U32(_) => "u32"@,
        ReadView::U64(_) => "u64"@,
        ReadView::I8(_) => "i8"@,
        ReadView::I16(_) => "i16"@,
        ReadView::I32(_) => "i32"@,
        ReadView::I64(_) => "i64"@,
        ReadView::F32(_) => "f32"@,
        ReadView::F64(_) => "f64"@,
        ReadView::Str(_) => "string"@,
        ReadView::Asset(_) => "asset"@,
        ReadView::Enum(_) => "enum"@,
        ReadView::Struct(..) => "struct"@,
        ReadView::Array(_) => "array"@,
        ReadView::FlatArray(_) => "flatarray"@,
        ReadView::MapOf(_) => "map"@,
        ReadView::Wire(_) => "wire_variant"@,
    }
}

/// The first property named `n`.
pub open spec fn field_of(fs: Seq<(Seq<char>, ReadView)>, n: Seq<char>) -> Option<ReadView>
    decreases fs.len(),
{
    if fs.len() == 0 {
        None
    } else if fs[0].0 == n {
        Some(fs[0].1)
    } else {
        field_of(fs.drop_first(), n)
    }
}

/// Property `n` of a struct value: the value is to be a struct that has it.
pub open spec fn prop_of(v: ReadView, n: Seq<char>) -> Result<ReadView, MetaErr> {
    match v {
        ReadView::Struct(name, fs) => match field_of(fs, n) {
            Some(x) => Ok(x),
            None => Err(MetaErr::MissingField(name, n)),
        },
        _ => Err(MetaErr::Expected("struct"@, kind_name(v))),
    }
}

pub open spec fn f64_of(v: ReadView) -> Result<StoredNum, MetaErr> {
    match v {
        ReadView::F64(n) => Ok(n),
        _ => Err(MetaErr::Expected("f64"@, kind_name(v))),
    }
}

pub open spec fn f32_of(v: ReadView) -> Result<StoredNum, MetaErr> {
    match v {
        ReadView::F32(n) => Ok(n),
        _ => Err(MetaErr::Expected("f32"@, kind_name(v))),
    }
}

pub open spec fn i64_of(v: ReadView) -> Result<i64, MetaErr> {
    match v {
        ReadView::I64(n) => Ok(n),
        _ => Err(MetaErr::Expected("i64"@, kind_name(v))),
    }
}

pub open spec fn bool_of(v: ReadView) -> Result<bool, MetaErr> {
    match v {
        ReadView::Bool(b) => Ok(b),
        _ => Err(MetaErr::Expected("bool"@, kind_name(v))),
    }
}

pub open spec fn str_of(v: ReadView) -> Result<Seq<char>, MetaErr> {
    match v {
        ReadView::Str(s) => Ok(s),
        _ => Err(MetaErr::Expected("str"@, kind_name(v))),
    }
}

pub open spec fn asset_of(v: ReadView) -> Result<Option<usize>, MetaErr> {
    match v {
        ReadView::Asset(a) => Ok(a),
        _ => Err(MetaErr::Expected("weak_object"@, kind_name(v))),
    }
}

/// Property `n` of a struct value, taken by `f`.
pub open spec fn prop_as<T>(v: ReadView, n: Seq<char>, f: spec_fn(ReadView) -> Result<T, MetaErr>) -> Result<T, MetaErr> {
    match prop_of(v, n) {
        Ok(x) => f(x),
        Err(e) => Err(e),
    }
}

pub open spec fn three_of(v: ReadView, a: Seq<char>, b: Seq<char>, c: Seq<char>, f: spec_fn(ReadView) -> Result<StoredNum, MetaErr>) -> Result<(StoredNum, StoredNum, StoredNum), MetaErr> {
    match prop_as(v, a, f) {
        Err(e) => Err(e),
        Ok(x) => match prop_as(v, b, f) {
            Err(e) => Err(e),
            Ok(y) => match prop_as(v, c, f) {
                Err(e) => Err(e),
                Ok(z) => Ok((x, y, z)),
            },
        },
    }
}

pub open spec fn four_of(v: ReadView, a: Seq<char>, b: Seq<char>, c: Seq<char>, d: Seq<char>, f: spec_fn(ReadView) -> Result<StoredNum, MetaErr>) -> Result<(StoredNum, StoredNum, StoredNum, StoredNum), MetaErr> {
    match three_of(v, a, b, c, f) {
        Err(e) => Err(e),
        Ok((x, y, z)) => match prop_as(v, d, f) {
            Err(e) => Err(e),
            Ok(w) => Ok((x, y, z, w)),
        },
    }
}

/// Each value taken by `f`, in order; the first error stops.
pub open spec fn map_res<T>(xs: Seq<ReadView>, f: spec_fn(ReadView) -> Result<T, MetaErr>) -> Result<Seq<T>, MetaErr>
    decreases xs.len(),
{
    if xs.len() == 0 {
        Ok(seq![])
    } else {
        match f(xs[0]) {
            Err(e) => Err(e),
            Ok(x) => match map_res(xs.drop_first(), f) {
                Err(e) => Err(e),
                Ok(rest) => Ok(seq![x] + rest),
            },
        }
    }
}

/// A wire graph array variant as read: one array per element type, floats
/// as stored.
#[derive(Debug)]
pub enum WireArrayRead {
    DoubleArray(Vec<StoredNum>),
    Int64Array(Vec<i64>),
    BoolArray(Vec<bool>),
    StringArray(Vec<String>),
    VectorArray(Vec<(StoredNum, StoredNum, StoredNum)>),
    RotatorArray(Vec<(StoredNum, StoredNum, StoredNum)>),
    QuatArray(Vec<(StoredNum, StoredNum, StoredNum, StoredNum)>),
    LinearColorArray(Vec<(StoredNum, StoredNum, StoredNum, StoredNum)>),
    ObjectArray(Vec<Option<usize>>),
}

pub enum WireArrayView {
    DoubleArray(Seq<StoredNum>),
    Int64Array(Seq<i64>),
    BoolArray(Seq<bool>),
    StringArray(Seq<Seq<char>>),
    VectorArray(Seq<(StoredNum, StoredNum, StoredNum)>),
    RotatorArray(Seq<(StoredNum, StoredNum, StoredNum)>),
    QuatArray(Seq<(StoredNum, StoredNum, StoredNum, StoredNum)>),
    LinearColorArray(Seq<(StoredNum, StoredNum, StoredNum, StoredNum)>),
    ObjectArray(Seq<Option<usize>>),
}

pub open spec fn wire_array_view(a: WireArrayRead) -> WireArrayView {
    match a {
        WireArrayRead::DoubleArray(v) => WireArrayView::DoubleArray(v@),
        WireArrayRead::Int64Array(v) => WireArrayView::Int64Array(v@),
        WireArrayRead::BoolArray(v) => WireArrayView::BoolArray(v@),
        WireArrayRead::StringArray(v) => WireArrayView::StringArray(v@.map_values(|s: String| s@)),
        WireArrayRead::VectorArray(v) => WireArrayView::VectorArray(v@),
        WireArrayRead::RotatorArray(v) => WireArrayView::RotatorArray(v@),
        WireArrayRead::QuatArray(v) => WireArrayView::QuatArray(v@),
        WireArrayRead::LinearColorArray(v) => WireArrayView::LinearColorArray(v@),
        WireArrayRead::ObjectArray(v) => WireArrayView::ObjectArray(v@),
    }
}

pub open spec fn lift_arr<T>(r: Result<Seq<T>, MetaErr>, f: spec_fn(Seq<T>) -> WireArrayView) -> Result<WireArrayView, MetaErr> {
    match r {
        Ok(xs) => Ok(f(xs)),
        Err(e) => Err(e),
    }
}

/// A `WireGraph*Array` struct read back as the array variant it holds: its
/// `Values` array, each item taken by the struct's element type.
pub open spec fn wire_array_spec(v: ReadView) -> Result<WireArrayView, MetaErr> {
    match v {
        ReadView::Struct(name, _) => match prop_of(v, "Values"@) {
            Err(e) => Err(e),
            Ok(vals) => match vals {
                ReadView::Array(xs) => wire_array_items(name, xs),
                ReadView::FlatArray(xs) => wire_array_items(name, xs),
                _ => Err(MetaErr::Expected("array"@, kind_name(vals))),
            },
        },
        _ => Err(MetaErr::Expected("struct"@, kind_name(v))),
    }
}

pub open spec fn wire_array_items(name: Seq<char>, xs: Seq<ReadView>) -> Result<WireArrayView, MetaErr> {
    if name == "WireGraphDoubleArray"@ {
        lift_arr(map_res(xs, |x: ReadView| f64_of(x)), |s: Seq<StoredNum>| WireArrayView::DoubleArray(s))
    } else if name == "WireGraphInt64Array"@ {
        lift_arr(map_res(xs, |x: ReadView| i64_of(x)), |s: Seq<i64>| WireArrayView::Int64Array(s))
    } else if name == "WireGraphBoolArray"@ {
        lift_arr(map_res(xs, |x: ReadView| bool_of(x)), |s: Seq<bool>| WireArrayView::BoolArray(s))
    } else if name == "WireGraphStringArray"@ {
        lift_arr(map_res(xs, |x: ReadView| str_of(x)), |s: Seq<Seq<char>>| WireArrayView::StringArray(s))
    } else if name == "WireGraphVectorArray"@ {
        lift_arr(
            map_res(xs, |x: ReadView| three_of(x, "X"@, "Y"@, "Z"@, |y: ReadView| f32_of(y))),
            |s: Seq<(StoredNum, StoredNum, StoredNum)>| WireArrayView::VectorArray(s),
        )
    } else if name == "WireGraphRotatorArray"@ {
        lift_arr(
            map_res(xs, |x: ReadView| three_of(x, "Pitch"@, "Yaw"@, "Roll"@, |y: ReadView| f64_of(y))),
            |s: Seq<(StoredNum, StoredNum, StoredNum)>| WireArrayView::RotatorArray(s),
        )
    } else if name == "WireGraphQuatArray"@ {
        lift_arr(
            map_res(xs, |x: ReadView| four_of(x, "X"@, "Y"@, "Z"@, "W"@, |y: ReadView| f64_of(y))),
            |s: Seq<(StoredNum, StoredNum, StoredNum, StoredNum)>| WireArrayView::QuatArray(s),
        )
    } else if name == "WireGraphLinearColorArray"@ {
        lift_arr(
            map_res(xs, |x: ReadView| four_of(x, "R"@, "G"@, "B"@, "A"@, |y: ReadView| f32_of(y))),
            |s: Seq<(StoredNum, StoredNum, StoredNum, StoredNum)>| WireArrayView::LinearColorArray(s),
        )
    } else if name == "WireGraphObjectArray"@ {
        lift_arr(map_res(xs, |x: ReadView| asset_of(x)), |s: Seq<Option<usize>>| WireArrayView::ObjectArray(s))
    } else {
        Err(MetaErr::UnknownType(name))
    }
}

fn kind_of(v: &ReadValue) -> (k: &'static str)
    ensures
        k@ == kind_name(read_view(*v)),
{
    match v {
        ReadValue::Bool(_) => "bool",
        ReadValue::U8(_) => "u8",
        ReadValue::U16(_) => "u16",
        ReadValue::U32(_) => "u32",
        ReadValue::U64(_) => "u64",
        ReadValue::I8(_) => "i8",
        ReadValue::I16(_) => "i16",
        ReadValue::I32(_) => "i32",
        ReadValue::I64(_) => "i64",
        ReadValue::F32(_) => "f32",
        ReadValue::F64(_) => "f64",
        ReadValue::Str(_) => "string",
        ReadValue::Asset(_) => "asset",
        ReadValue::Enum(_) => "enum",
        ReadValue::Struct(..) => "struct",
        ReadValue::Array(_) => "array",
        ReadValue::FlatArray(_) => "flatarray",
        ReadValue::MapOf(_) => "map",
        ReadValue::Wire(_) => "wire_variant",
    }
}

fn expected_kind(what: &str, v: &ReadValue) -> (e: BrdbSchemaError)
    ensures
        err_view(e) == MetaErr::Expected(what@, kind_name(read_view(*v))),
{
    BrdbSchemaError::ExpectedType(what.to_owned(), kind_of(v).to_owned())
}

proof fn lemma_field_of(fs: Seq<(String, ReadValue)>, n: Seq<char>)
    ensures
        field_of(fields_view(fs), n) == match first_named(fs, n) {
            Some(k) => Some(read_view(fs[k].1)),
            None => None::<ReadView>,
        },
    decreases fs.len(),
{
    if fs.len() > 0 {
        lemma_field_of(fs.drop_first(), n);
        assert(fields_view(fs).drop_first() =~= fields_view(fs.drop_first()));
        lemma_first_named(fs.drop_first(), n);
        if let Some(k) = first_named(fs.drop_first(), n) {
            assert(fs.drop_first()[k] == fs[k + 1]);
        }
    }
}

/// Property `n` of a struct value (see [`prop_of`]).
fn prop_read<'a>(v: &'a ReadValue, n: &str) -> (r: Result<&'a ReadValue, BrdbSchemaError>)
    ensures
        match prop_of(read_view(*v), n@) {
            Ok(x) => r matches Ok(y) && read_view(*y) == x,
            Err(e) => r matches Err(y) && err_view(y) == e,
        },
{
    match v {
        ReadValue::Struct(name, fs) => {
            proof {
                lemma_field_of(fs@, n@);
                lemma_first_named(fs@, n@);
            }
            match find_named(fs, n) {
                Some(k) => Ok(&fs[k].1),
                None => Err(BrdbSchemaError::MissingStructField(name.clone(), n.to_owned())),
            }
        },
        _ => Err(expected_kind("struct", v)),
    }
}

fn f64_read(v: &ReadValue) -> (r: Result<StoredNum, BrdbSchemaError>)
    ensures
        match f64_of(read_view(*v)) {
            Ok(x) => r == Ok::<StoredNum, BrdbSchemaError>(x),
            Err(e) => r matches Err(y) && err_view(y) == e,
        },
{
    match v {
        ReadValue::F64(n) => Ok(*n),
        _ => Err(expected_kind("f64", v)),
    }
}

fn f32_read(v: &ReadValue) -> (r: Result<StoredNum, BrdbSchemaError>)
    ensures
        match f32_of(read_view(*v)) {
            Ok(x) => r == Ok::<StoredNum, BrdbSchemaError>(x),
            Err(e) => r matches Err(y) && err_view(y) == e,
        },
{
    match v {
        ReadValue::F32(n) => Ok(*n),
        _ => Err(expected_kind("f32", v)),
    }
}

fn i64_read(v: &ReadValue) -> (r: Result<i64, BrdbSchemaError>)
    ensures
        match i64_of(read_view(*v)) {
            Ok(x) => r == Ok::<i64, BrdbSchemaError>(x),
            Err(e) => r matches Err(y) && err_view(y) == e,
        },
{
    match v {
        ReadValue::I64(n) => Ok(*n),
        _ => Err(expected_kind("i64", v)),
    }
}

fn bool_read(v: &ReadValue) -> (r: Result<bool, BrdbSchemaError>)
    ensures
        match bool_of(read_view(*v)) {
            Ok(x) => r == Ok::<bool, BrdbSchemaError>(x),
            Err(e) => r matches Err(y) && err_view(y) == e,
        },
{
    match v {
        ReadValue::Bool(b) => Ok(*b),
        _ => Err(expected_kind("bool", v)),
    }
}

fn str_read(v: &ReadValue) -> (r: Result<String, BrdbSchemaError>)
    ensures
        match str_of(read_view(*v)) {
            Ok(x) => r matches Ok(y) && y@ == x,
            Err(e) => r matches Err(y) && err_view(y) == e,
        },
{
    match v {
        ReadValue::Str(t) => Ok(t.clone()),
        _ => Err(expected_kind("str", v)),
    }
}

fn asset_read(v: &ReadValue) -> (r: Result<Option<usize>, BrdbSchemaError>)
    ensures
        match asset_of(read_view(*v)) {
            Ok(x) => r == Ok::<Option<usize>, BrdbSchemaError>(x),
            Err(e) => r matches Err(y) && err_view(y) == e,
        },
{
    match v {
        ReadValue::Asset(a) => Ok(*a),
        _ => Err(expected_kind("weak_object", v)),
    }
}

fn num_prop(v: &ReadValue, n: &str, wide: bool) -> (r: Result<StoredNum, BrdbSchemaError>)
    ensures
        match prop_as(read_view(*v), n@, if wide { |y: ReadView| f64_of(y) } else { |y: ReadView| f32_of(y) }) {
            Ok(x) => r == Ok::<StoredNum, BrdbSchemaError>(x),
            Err(e) => r matches Err(y) && err_view(y) == e,
        },
{
    match prop_read(v, n) {
        Ok(x) => if wide {
            f64_read(x)
        } else {
            f32_read(x)
        },
        Err(e) => Err(e),
    }
}

fn three_read(v: &ReadValue, a: &str, b: &str, c: &str, wide: bool) -> (r: Result<(StoredNum, StoredNum, StoredNum), BrdbSchemaError>)
    ensures
        match three_of(read_view(*v), a@, b@, c@, if wide { |y: ReadView| f64_of(y) } else { |y: ReadView| f32_of(y) }) {
            Ok(x) => r == Ok::<(StoredNum, StoredNum, StoredNum), BrdbSchemaError>(x),
            Err(e) => r matches Err(y) && err_view(y) == e,
        },
{
    let x = match num_prop(v, a, wide) {
        Ok(x) => x,
        Err(e) => {
            return Err(e);
        },
    };
    let y = match num_prop(v, b, wide) {
        Ok(y) => y,
        Err(e) => {
            return Err(e);
        },
    };
    let z = match num_prop(v, c, wide) {
        Ok(z) => z,
        Err(e) => {
            return Err(e);
        },
    };
    Ok((x, y, z))
}

fn four_read(v: &ReadValue, a: &str, b: &str, c: &str, d: &str, wide: bool) -> (r: Result<(StoredNum, StoredNum, StoredNum, StoredNum), BrdbSchemaError>)
    ensures
        match four_of(read_view(*v), a@, b@, c@, d@, if wide { |y: ReadView| f64_of(y) } else { |y: ReadView| f32_of(y) }) {
            Ok(x) => r == Ok::<(StoredNum, StoredNum, StoredNum, StoredNum), BrdbSchemaError>(x),
            Err(e) => r matches Err(y) && err_view(y) == e,
        },
{
    let (x, y, z) = match three_read(v, a, b, c, wide) {
        Ok(t) => t,
        Err(e) => {
            return Err(e);
        },
    };
    let w = match num_prop(v, d, wide) {
        Ok(w) => w,
        Err(e) => {
            return Err(e);
        },
    };
    Ok((x, y, z, w))
}

/// `acc` in front of what `r` holds.
pub open spec fn rprepend<T>(acc: Seq<T>, r: Result<Seq<T>, MetaErr>) -> Result<Seq<T>, MetaErr> {
    match r {
        Ok(ys) => Ok(acc + ys),
        Err(e) => Err(e),
    }
}

proof fn lemma_map_res_step<T>(acc: Seq<T>, xs: Seq<ReadView>, f: spec_fn(ReadView) -> Result<T, MetaErr>, i: int, x: T)
    requires
        0 <= i < xs.len(),
        f(xs[i]) == Ok::<T, MetaErr>(x),
    ensures
        rprepend(acc, map_res(xs.skip(i), f)) == rprepend(acc.push(x), map_res(xs.skip(i + 1), f)),
{
    assert(xs.skip(i).drop_first() =~= xs.skip(i + 1));
    assert(xs.skip(i)[0] == xs[i]);
    if let Ok(ys) = map_res(xs.skip(i + 1), f) {
        assert(acc + (seq![x] + ys) =~= acc.push(x) + ys);
    }
}

proof fn lemma_map_res_err<T>(acc: Seq<T>, xs: Seq<ReadView>, f: spec_fn(ReadView) -> Result<T, MetaErr>, i: int, e: MetaErr)
    requires
        0 <= i < xs.len(),
        f(xs[i]) == Err::<T, MetaErr>(e),
    ensures
        rprepend(acc, map_res(xs.skip(i), f)) == Err::<Seq<T>, MetaErr>(e),
{
    assert(xs.skip(i)[0] == xs[i]);
}

fn f64s_read(xs: &Vec<ReadValue>) -> (r: Result<Vec<StoredNum>, BrdbSchemaError>)
    ensures
        match map_res(values_view(xs@), |x: ReadView| f64_of(x)) {
            Ok(ys) => r matches Ok(out) && out@ == ys,
            Err(e) => r matches Err(y) && err_view(y) == e,
        },
{
    let ghost vs = values_view(xs@);
    let ghost f = |x: ReadView| f64_of(x);
    let mut out: Vec<StoredNum> = Vec::new();
    let mut i: usize = 0;
    proof {
        lemma_values_view(xs@);
        assert(vs.skip(0) =~= vs);
        if let Ok(ys) = map_res(vs, f) {
            assert(seq![] + ys =~= ys);
        }
    }
    while i < xs.len()
        invariant
            i <= xs@.len(),
            vs == values_view(xs@),
            vs.len() == xs@.len(),
            forall|j: int| 0 <= j < xs@.len() ==> #[trigger] vs[j] == read_view(xs@[j]),
            f == |x: ReadView| f64_of(x),
            map_res(vs, f) == rprepend(out@, map_res(vs.skip(i as int), f)),
        decreases xs@.len() - i,
    {
        let x = match f64_read(&xs[i]) {
            Ok(x) => x,
            Err(e) => {
                proof {
                    lemma_map_res_err(out@, vs, f, i as int, err_view(e));
                }
                return Err(e);
            },
        };
        proof {
            lemma_map_res_step(out@, vs, f, i as int, x);
        }
        out.push(x);
        i = i + 1;
    }
    proof {
        assert(vs.skip(i as int) =~= Seq::<ReadView>::empty());
        assert(out@ + seq![] =~= out@);
    }
    Ok(out)
}

fn i64s_read(xs: &Vec<ReadValue>) -> (r: Result<Vec<i64>, BrdbSchemaError>)
    ensures
        match map_res(values_view(xs@), |x: ReadView| i64_of(x)) {
            Ok(ys) => r matches Ok(out) && out@ == ys,
            Err(e) => r matches Err(y) && err_view(y) == e,
        },
{
    let ghost vs = values_view(xs@);
    let ghost f = |x: ReadView| i64_of(x);
    let mut out: Vec<i64> = Vec::new();
    let mut i: usize = 0;
    proof {
        lemma_values_view(xs@);
        assert(vs.skip(0) =~= vs);
        if let Ok(ys) = map_res(vs, f) {
            assert(seq![] + ys =~= ys);
        }
    }
    while i < xs.len()
        invariant
            i <= xs@.len(),
            vs == values_view(xs@),
            vs.len() == xs@.len(),
            forall|j: int| 0 <= j < xs@.len() ==> #[trigger] vs[j] == read_view(xs@[j]),
            f == |x: ReadView| i64_of(x),
            map_res(vs, f) == rprepend(out@, map_res(vs.skip(i as int), f)),
        decreases xs@.len() - i,
    {
        let x = match i64_read(&xs[i]) {
            Ok(x) => x,
            Err(e) => {
                proof {
                    lemma_map_res_err(out@, vs, f, i as int, err_view(e));
                }
                return Err(e);
            },
        };
        proof {
            lemma_map_res_step(out@, vs, f, i as int, x);
        }
        out.push(x);
        i = i + 1;
    }
    proof {
        assert(vs.skip(i as int) =~= Seq::<ReadView>::empty());
        assert(out@ + seq![] =~= out@);
    }
    Ok(out)
}

fn bools_read(xs: &Vec<ReadValue>) -> (r: Result<Vec<bool>, BrdbSchemaError>)
    ensures
        match map_res(values_view(xs@), |x: ReadView| bool_of(x)) {
            Ok(ys) => r matches Ok(out) && out@ == ys,
            Err(e) => r matches Err(y) && err_view(y) == e,
        },
{
    let ghost vs = values_view(xs@);
    let ghost f = |x: ReadView| bool_of(x);
    let mut out: Vec<bool> = Vec::new();
    let mut i: usize = 0;
    proof {
        lemma_values_view(xs@);
        assert(vs.skip(0) =~= vs);
        if let Ok(ys) = map_res(vs, f) {
            assert(seq![] + ys =~= ys);
        }
    }
    while i < xs.len()
        invariant
            i <= xs@.len(),
            vs == values_view(xs@),
            vs.len() == xs@.len(),
            forall|j: int| 0 <= j < xs@.len() ==> #[trigger] vs[j] == read_view(xs@[j]),
            f == |x: ReadView| bool_of(x),
            map_res(vs, f) == rprepend(out@, map_res(vs.skip(i as int), f)),
        decreases xs@.len() - i,
    {
        let x = match bool_read(&xs[i]) {
            Ok(x) => x,
            Err(e) => {
                proof {
                    lemma_map_res_err(out@, vs, f, i as int, err_view(e));
                }
                return Err(e);
            },
        };
        proof {
            lemma_map_res_step(out@, vs, f, i as int, x);
        }
        out.push(x);
        i = i + 1;
    }
    proof {
        assert(vs.skip(i as int) =~= Seq::<ReadView>::empty());
        assert(out@ + seq![] =~= out@);
    }
    Ok(out)
}

fn assets_read(xs: &Vec<ReadValue>) -> (r: Result<Vec<Option<usize>>, BrdbSchemaError>)
    ensures
        match map_res(values_view(xs@), |x: ReadView| asset_of(x)) {
            Ok(ys) => r matches Ok(out) && out@ == ys,
            Err(e) => r matches Err(y) && err_view(y) == e,
        },
{
    let ghost vs = values_view(xs@);
    let ghost f = |x: ReadView| asset_of(x);
    let mut out: Vec<Option<usize>> = Vec::new();
    let mut i: usize = 0;
    proof {
        lemma_values_view(xs@);
        assert(vs.skip(0) =~= vs);
        if let Ok(ys) = map_res(vs, f) {
            assert(seq![] + ys =~= ys);
        }
    }
    while i < xs.len()
        invariant
            i <= xs@.len(),
            vs == values_view(xs@),
            vs.len() == xs@.len(),
            forall|j: int| 0 <= j < xs@.len() ==> #[trigger] vs[j] == read_view(xs@[j]),
            f == |x: ReadView| asset_of(x),
            map_res(vs, f) == rprepend(out@, map_res(vs.skip(i as int), f)),
        decreases xs@.len() - i,
    {
        let x = match asset_read(&xs[i]) {
            Ok(x) => x,
            Err(e) => {
                proof {
                    lemma_map_res_err(out@, vs, f, i as int, err_view(e));
                }
                return Err(e);
            },
        };
        proof {
            lemma_map_res_step(out@, vs, f, i as int, x);
        }
        out.push(x);
        i = i + 1;
    }
    proof {
        assert(vs.skip(i as int) =~= Seq::<ReadView>::empty());
        assert(out@ + seq![] =~= out@);
    }
    Ok(out)
}

fn vectors_read(xs: &Vec<ReadValue>) -> (r: Result<Vec<(StoredNum, StoredNum, StoredNum)>, BrdbSchemaError>)
    ensures
        match map_res(values_view(xs@), |x: ReadView| three_of(x, "X"@, "Y"@, "Z"@, |y: ReadView| f32_of(y))) {
            Ok(ys) => r matches Ok(out) && out@ == ys,
            Err(e) => r matches Err(y) && err_view(y) == e,
        },
{
    let ghost vs = values_view(xs@);
    let ghost f = |x: ReadView| three_of(x, "X"@, "Y"@, "Z"@, |y: ReadView| f32_of(y));
    let mut out: Vec<(StoredNum, StoredNum, StoredNum)> = Vec::new();
    let mut i: usize = 0;
    proof {
        lemma_values_view(xs@);
        assert(vs.skip(0) =~= vs);
        if let Ok(ys) = map_res(vs, f) {
            assert(seq![] + ys =~= ys);
        }
    }
    while i < xs.len()
        invariant
            i <= xs@.len(),
            vs == values_view(xs@),
            vs.len() == xs@.len(),
            forall|j: int| 0 <= j < xs@.len() ==> #[trigger] vs[j] == read_view(xs@[j]),
            f == |x: ReadView| three_of(x, "X"@, "Y"@, "Z"@, |y: ReadView| f32_of(y)),
            map_res(vs, f) == rprepend(out@, map_res(vs.skip(i as int), f)),
        decreases xs@.len() - i,
    {
        let x = match three_read(&xs[i], "X", "Y", "Z", false) {
            Ok(x) => x,
            Err(e) => {
                proof {
                    lemma_map_res_err(out@, vs, f, i as int, err_view(e));
                }
                return Err(e);
            },
        };
        proof {
            lemma_map_res_step(out@, vs, f, i as int, x);
        }
        out.push(x);
        i = i + 1;
    }
    proof {
        assert(vs.skip(i as int) =~= Seq::<ReadView>::empty());
        assert(out@ + seq![] =~= out@);
    }
    Ok(out)
}

fn rotators_read(xs: &Vec<ReadValue>) -> (r: Result<Vec<(StoredNum, StoredNum, StoredNum)>, BrdbSchemaError>)
    ensures
        match map_res(values_view(xs@), |x: ReadView| three_of(x, "Pitch"@, "Yaw"@, "Roll"@, |y: ReadView| f64_of(y))) {
            Ok(ys) => r matches Ok(out) && out@ == ys,
            Err(e) => r matches Err(y) && err_view(y) == e,
        },
{
    let ghost vs = values_view(xs@);
    let ghost f = |x: ReadView| three_of(x, "Pitch"@, "Yaw"@, "Roll"@, |y: ReadView| f64_of(y));
    let mut out: Vec<(StoredNum, StoredNum, StoredNum)> = Vec::new();
    let mut i: usize = 0;
    proof {
        lemma_values_view(xs@);
        assert(vs.skip(0) =~= vs);
        if let Ok(ys) = map_res(vs, f) {
            assert(seq![] + ys =~= ys);
        }
    }
    while i < xs.len()
        invariant
            i <= xs@.len(),
            vs == values_view(xs@),
            vs.len() == xs@.len(),
            forall|j: int| 0 <= j < xs@.len() ==> #[trigger] vs[j] == read_view(xs@[j]),
            f == |x: ReadView| three_of(x, "Pitch"@, "Yaw"@, "Roll"@, |y: ReadView| f64_of(y)),
            map_res(vs, f) == rprepend(out@, map_res(vs.skip(i as int), f)),
        decreases xs@.len() - i,
    {
        let x = match three_read(&xs[i], "Pitch", "Yaw", "Roll", true) {
            Ok(x) => x,
            Err(e) => {
                proof {
                    lemma_map_res_err(out@, vs, f, i as int, err_view(e));
                }
                return Err(e);
            },
        };
        proof {
            lemma_map_res_step(out@, vs, f, i as int, x);
        }
        out.push(x);
        i = i + 1;
    }
    proof {
        assert(vs.skip(i as int) =~= Seq::<ReadView>::empty());
        assert(out@ + seq![] =~= out@);
    }
    Ok(out)
}

fn quats_read(xs: &Vec<ReadValue>) -> (r: Result<Vec<(StoredNum, StoredNum, StoredNum, StoredNum)>, BrdbSchemaError>)
    ensures
        match map_res(values_view(xs@), |x: ReadView| four_of(x, "X"@, "Y"@, "Z"@, "W"@, |y: ReadView| f64_of(y))) {
            Ok(ys) => r matches Ok(out) && out@ == ys,
            Err(e) => r matches Err(y) && err_view(y) == e,
        },
{
    let ghost vs = values_view(xs@);
    let ghost f = |x: ReadView| four_of(x, "X"@, "Y"@, "Z"@, "W"@, |y: ReadView| f64_of(y));
    let mut out: Vec<(StoredNum, StoredNum, StoredNum, StoredNum)> = Vec::new();
    let mut i: usize = 0;
    proof {
        lemma_values_view(xs@);
        assert(vs.skip(0) =~= vs);
        if let Ok(ys) = map_res(vs, f) {
            assert(seq![] + ys =~= ys);
        }
    }
    while i < xs.len()
        invariant
            i <= xs@.len(),
            vs == values_view(xs@),
            vs.len() == xs@.len(),
            forall|j: int| 0 <= j < xs@.len() ==> #[trigger] vs[j] == read_view(xs@[j]),
            f == |x: ReadView| four_of(x, "X"@, "Y"@, "Z"@, "W"@, |y: ReadView| f64_of(y)),
            map_res(vs, f) == rprepend(out@, map_res(vs.skip(i as int), f)),
        decreases xs@.len() - i,
    {
        let x = match four_read(&xs[i], "X", "Y", "Z", "W", true) {
            Ok(x) => x,
            Err(e) => {
                proof {
                    lemma_map_res_err(out@, vs, f, i as int, err_view(e));
                }
                return Err(e);
            },
        };
        proof {
            lemma_map_res_step(out@, vs, f, i as int, x);
        }
        out.push(x);
        i = i + 1;
    }
    proof {
        assert(vs.skip(i as int) =~= Seq::<ReadView>::empty());
        assert(out@ + seq![] =~= out@);
    }
    Ok(out)
}

fn colors_read(xs: &Vec<ReadValue>) -> (r: Result<Vec<(StoredNum, StoredNum, StoredNum, StoredNum)>, BrdbSchemaError>)
    ensures
        match map_res(values_view(xs@), |x: ReadView| four_of(x, "R"@, "G"@, "B"@, "A"@, |y: ReadView| f32_of(y))) {
            Ok(ys) => r matches Ok(out) && out@ == ys,
            Err(e) => r matches Err(y) && err_view(y) == e,
        },
{
    let ghost vs = values_view(xs@);
    let ghost f = |x: ReadView| four_of(x, "R"@, "G"@, "B"@, "A"@, |y: ReadView| f32_of(y));
    let mut out: Vec<(StoredNum, StoredNum, StoredNum, StoredNum)> = Vec::new();
    let mut i: usize = 0;
    proof {
        lemma_values_view(xs@);
        assert(vs.skip(0) =~= vs);
        if let Ok(ys) = map_res(vs, f) {
            assert(seq![] + ys =~= ys);
        }
    }
    while i < xs.len()
        invariant
            i <= xs@.len(),
            vs == values_view(xs@),
            vs.len() == xs@.len(),
            forall|j: int| 0 <= j < xs@.len() ==> #[trigger] vs[j] == read_view(xs@[j]),
            f == |x: ReadView| four_of(x, "R"@, "G"@, "B"@, "A"@, |y: ReadView| f32_of(y)),
            map_res(vs, f) == rprepend(out@, map_res(vs.skip(i as int), f)),
        decreases xs@.len() - i,
    {
        let x = match four_read(&xs[i], "R", "G", "B", "A", false) {
            Ok(x) => x,
            Err(e) => {
                proof {
                    lemma_map_res_err(out@, vs, f, i as int, err_view(e));
                }
                return Err(e);
            },
        };
        proof {
            lemma_map_res_step(out@, vs, f, i as int, x);
        }
        out.push(x);
        i = i + 1;
    }
    proof {
        assert(vs.skip(i as int) =~= Seq::<ReadView>::empty());
        assert(out@ + seq![] =~= out@);
    }
    Ok(out)
}

fn strs_read(xs: &Vec<ReadValue>) -> (r: Result<Vec<String>, BrdbSchemaError>)
    ensures
        match map_res(values_view(xs@), |x: ReadView| str_of(x)) {
            Ok(ys) => r matches Ok(out) && out@.map_values(|q: String| q@) == ys,
            Err(e) => r matches Err(y) && err_view(y) == e,
        },
{
    let ghost vs = values_view(xs@);
    let ghost f = |x: ReadView| str_of(x);
    let mut out: Vec<String> = Vec::new();
    let mut i: usize = 0;
    proof {
        lemma_values_view(xs@);
        assert(vs.skip(0) =~= vs);
        if let Ok(ys) = map_res(vs, f) {
            assert(seq![] + ys =~= ys);
        }
    }
    while i < xs.len()
        invariant
            i <= xs@.len(),
            vs == values_view(xs@),
            vs.len() == xs@.len(),
            forall|j: int| 0 <= j < xs@.len() ==> #[trigger] vs[j] == read_view(xs@[j]),
            f == |x: ReadView| str_of(x),
            map_res(vs, f) == rprepend(out@.map_values(|q: String| q@), map_res(vs.skip(i as int), f)),
        decreases xs@.len() - i,
    {
        let x = match str_read(&xs[i]) {
            Ok(x) => x,
            Err(e) => {
                proof {
                    lemma_map_res_err(out@.map_values(|q: String| q@), vs, f, i as int, err_view(e));
                }
                return Err(e);
            },
        };
        proof {
            lemma_map_res_step(out@.map_values(|q: String| q@), vs, f, i as int, x@);
        }
        let ghost before = out@;
        let ghost xv = x@;
        out.push(x);
        assert(out@.map_values(|q: String| q@) =~= before.map_values(|q: String| q@).push(xv));
        i = i + 1;
    }
    proof {
        assert(vs.skip(i as int) =~= Seq::<ReadView>::empty());
        assert(out@.map_values(|q: String| q@) + seq![] =~= out@.map_values(|q: String| q@));
    }
    Ok(out)
}

fn items_as_array(name: &str, xs: &Vec<ReadValue>) -> (r: Result<WireArrayRead, BrdbSchemaError>)
    ensures
        match wire_array_items(name@, values_view(xs@)) {
            Ok(a) => r matches Ok(x) && wire_array_view(x) == a,
            Err(e) => r matches Err(y) && err_view(y) == e,
        },
{
    if str_eq(name, "WireGraphDoubleArray") {
        match f64s_read(xs) {
            Ok(v) => Ok(WireArrayRead::DoubleArray(v)),
            Err(e) => Err(e),
        }
    } else if str_eq(name, "WireGraphInt64Array") {
        match i64s_read(xs) {
            Ok(v) => Ok(WireArrayRead::Int64Array(v)),
            Err(e) => Err(e),
        }
    } else if str_eq(name, "WireGraphBoolArray") {
        match bools_read(xs) {
            Ok(v) => Ok(WireArrayRead::BoolArray(v)),
            Err(e) => Err(e),
        }
    } else if str_eq(name, "WireGraphStringArray") {
        match strs_read(xs) {
            Ok(v) => Ok(WireArrayRead::StringArray(v)),
            Err(e) => Err(e),
        }
    } else if str_eq(name, "WireGraphVectorArray") {
        match vectors_read(xs) {
            Ok(v) => Ok(WireArrayRead::VectorArray(v)),
            Err(e) => Err(e),
        }
    } else if str_eq(name, "WireGraphRotatorArray") {
        match rotators_read(xs) {
            Ok(v) => Ok(WireArrayRead::RotatorArray(v)),
            Err(e) => Err(e),
        }
    } else if str_eq(name, "WireGraphQuatArray") {
        match quats_read(xs) {
            Ok(v) => Ok(WireArrayRead::QuatArray(v)),
            Err(e) => Err(e),
        }
    } else if str_eq(name, "WireGraphLinearColorArray") {
        match colors_read(xs) {
            Ok(v) => Ok(WireArrayRead::LinearColorArray(v)),
            Err(e) => Err(e),
        }
    } else if str_eq(name, "WireGraphObjectArray") {
        match assets_read(xs) {
            Ok(v) => Ok(WireArrayRead::ObjectArray(v)),
            Err(e) => Err(e),
        }
    } else {
        Err(BrdbSchemaError::UnknownType(name.to_owned()))
    }
}

impl WireArrayRead {
    /// A `WireGraph*Array` struct, as read, back as the array it holds (see
    /// [`wire_array_spec`]).
    pub fn try_from(v: &ReadValue) -> (r: Result<WireArrayRead, BrdbSchemaError>)
        ensures
            match wire_array_spec(read_view(*v)) {
                Ok(a) => r matches Ok(x) && wire_array_view(x) == a,
                Err(e) => r matches Err(y) && err_view(y) == e,
            },
    {
        match v {
            ReadValue::Struct(name, _) => {
                let vals = match prop_read(v, "Values") {
                    Ok(x) => x,
                    Err(e) => {
                        return Err(e);
                    },
                };
                match vals {
                    ReadValue::Array(xs) => items_as_array(name.as_str(), xs),
                    ReadValue::FlatArray(xs) => items_as_array(name.as_str(), xs),
                    _ => Err(expected_kind("array", vals)),
                }
            },
            _ => Err(expected_kind("struct", v)),
        }
    }
}

/// What reading gives back of a boolean or integer value.
pub open spec fn scalar_view(v: ValueModel) -> ReadView {
    match v {
        ValueModel::Bool(b) => ReadView::Bool(b),
        ValueModel::U8(x) => ReadView::U8(x),
        ValueModel::U16(x) => ReadView::U16(x),
        ValueModel::U32(x) => ReadView::U32(x),
        ValueModel::U64(x) => ReadView::U64(x),
        ValueModel::I8(x) => ReadView::I8(x),
        ValueModel::I16(x) => ReadView::I16(x),
        ValueModel::I32(x) => ReadView::I32(x),
        ValueModel::I64(x) => ReadView::I64(x),
        _ => ReadView::Bool(false),
    }
}

/// The slot type of a boolean or integer value.
pub open spec fn scalar_slot(v: ValueModel) -> Option<Seq<char>> {
    match v {
        ValueModel::Bool(_) => Some("bool"@),
        ValueModel::U8(_) => Some("u8"@),
        ValueModel::U16(_) => Some("u16"@),
        ValueModel::U32(_) => Some("u32"@),
        ValueModel::U64(_) => Some("u64"@),
        ValueModel::I8(_) => Some("i8"@),
        ValueModel::I16(_) => Some("i16"@),
        ValueModel::I32(_) => Some("i32"@),
        ValueModel::I64(_) => Some("i64"@),
        _ => None,
    }
}

/// A boolean or an integer written into its own slot reads back from that
/// slot as the same value, and the reader stops right after it.
pub proof fn lemma_scalar_write_read(sch: SchemaModel, assets: nat, v: ValueModel, rest: Seq<u8>, fuel: nat)
    requires
        scalar_slot(v) is Some,
    ensures
        value_out(sch, scalar_slot(v)->Some_0, v) matches Some(Ok(b)) && p_type(
            sch,
            assets,
            scalar_slot(v)->Some_0,
            b + rest,
            fuel,
        ) == r_ok(scalar_view(v), rest),
{
    lemma_builtin_names();
    let ty = scalar_slot(v)->Some_0;
    match v {
        ValueModel::Bool(x) => {
            assert(value_out(sch, ty, v) == ok(bool_bytes(x)));
            assert((bool_bytes(x) + rest).skip(1) =~= rest);
        },
        ValueModel::U8(x) => {
            assert(value_out(sch, ty, v) == ok(u8_bytes(x as u64)));
            lemma_u8_read_uint(x as u64, rest);
        },
        ValueModel::U16(x) => {
            assert(value_out(sch, ty, v) == ok(uint_bytes(x as u64)));
            lemma_uint_read_uint(x as u64, rest);
        },
        ValueModel::U32(x) => {
            assert(value_out(sch, ty, v) == ok(uint_bytes(x as u64)));
            lemma_uint_read_uint(x as u64, rest);
        },
        ValueModel::U64(x) => {
            assert(value_out(sch, ty, v) == ok(uint_bytes(x)));
            lemma_uint_read_uint(x, rest);
        },
        ValueModel::I8(x) => {
            assert(value_out(sch, ty, v) == ok(int_bytes(x as i64)));
            lemma_int_roundtrip(x as i64, rest);
        },
        ValueModel::I16(x) => {
            assert(value_out(sch, ty, v) == ok(int_bytes(x as i64)));
            lemma_int_roundtrip(x as i64, rest);
        },
        ValueModel::I32(x) => {
            assert(value_out(sch, ty, v) == ok(int_bytes(x as i64)));
            lemma_int_roundtrip(x as i64, rest);
        },
        ValueModel::I64(x) => {
            assert(value_out(sch, ty, v) == ok(int_bytes(x)));
            lemma_int_roundtrip(x, rest);
        },
        _ => {},
    }
}

/// The header that a string of `n` bytes is written with gives back `n`.
pub(crate) proof fn lemma_str_header(n: nat, body: Seq<u8>)
    requires
        n <= u32::MAX,
    ensures
        mp_str_len(str_header(n) + body) == Some((n, str_header(n).len() as int)),
{
    lemma_p256_values();
    let s = str_header(n) + body;
    if n < 32 {
    } else if n < 256 {
        lemma_be_bytes(n, 1);
        assert(be_bytes(n, 1) =~= seq![(n % 256) as u8]);
        assert(s.subrange(1, 2) =~= be_bytes(n, 1));
    } else if n < 65536 {
        lemma_be_bytes(n, 2);
        assert(s.subrange(1, 3) =~= be_bytes(n, 2));
    } else {
        lemma_be_bytes(n, 4);
        assert(s.subrange(1, 5) =~= be_bytes(n, 4));
    }
}

proof fn lemma_str_slot_names()
    ensures
        "str"@ != "bool"@ && "str"@ != "u8"@ && "str"@ != "u16"@ && "str"@ != "u32"@ && "str"@ != "u64"@,
        "str"@ != "i8"@ && "str"@ != "i16"@ && "str"@ != "i32"@ && "str"@ != "i64"@,
        "str"@ != "f32"@ && "str"@ != "f64"@,
{
    reveal_strlit("str");
    reveal_strlit("bool");
    reveal_strlit("u8");
    reveal_strlit("u16");
    reveal_strlit("u32");
    reveal_strlit("u64");
    reveal_strlit("i8");
    reveal_strlit("i16");
    reveal_strlit("i32");
    reveal_strlit("i64");
    reveal_strlit("f32");
    reveal_strlit("f64");
    assert("str"@[0] != "u16"@[0]);
    assert("str"@[0] != "u32"@[0]);
    assert("str"@[0] != "u64"@[0]);
    assert("str"@[0] != "i16"@[0]);
    assert("str"@[0] != "i32"@[0]);
    assert("str"@[0] != "i64"@[0]);
    assert("str"@[0] != "f32"@[0]);
    assert("str"@[0] != "f64"@[0]);
}

proof fn lemma_str_slot(sch: SchemaModel, assets: nat, x: String, s: Seq<u8>, fuel: nat)
    ensures
        value_out(sch, "str"@, ValueModel::Str(x)) == str_out(x@),
        p_type(sch, assets, "str"@, s, fuel) == r_map(m_str(s), |t: Seq<char>| ReadView::Str(t)),
{
    lemma_str_slot_names();
}

/// A string written into a `str` slot reads back from that slot as the
/// same characters, and the reader stops right after it.
pub proof fn lemma_str_write_read(sch: SchemaModel, assets: nat, x: String, rest: Seq<u8>, fuel: nat)
    requires
        encode_utf8(x@).len() <= u32::MAX,
    ensures
        value_out(sch, "str"@, ValueModel::Str(x)) matches Some(Ok(b)) && p_type(sch, assets, "str"@, b + rest, fuel)
            == r_ok(ReadView::Str(x@), rest),
{
    let e = encode_utf8(x@);
    let n = e.len();
    let h = str_header(n);
    let s = h + e + rest;
    lemma_str_slot(sch, assets, x, s, fuel);
    assert(s =~= h + (e + rest));
    lemma_str_header(n, e + rest);
    let k = h.len() as int;
    assert(s.skip(k) =~= e + rest);
    assert((e + rest).take(n as int) =~= e);
    assert((e + rest).skip(n as int) =~= rest);
    encode_utf8_valid_utf8(x@);
    encode_utf8_decode_utf8(x@);
}

pub(crate) proof fn lemma_variant_write(sch: SchemaModel, k: int, w: WireModel)
    requires
        0 <= k < sch.variants@.len(),
        first_named(sch.variants@, sch.variants@[k].0@) == Some(k),
        !is_builtin(sch.variants@[k].0@),
    ensures
        value_out(sch, sch.variants@[k].0@, ValueModel::Wire(w)) == named_wire(
            sch.variants@[k].1@,
            sch.variants@[k].0@,
            w,
        ),
{
}

#[verifier::rlimit(60)]
pub(crate) proof fn lemma_variant_read(sch: SchemaModel, assets: nat, k: int, t: int, pay_rest: Seq<u8>, fuel: nat)
    requires
        0 <= k < sch.variants@.len(),
        first_named(sch.variants@, sch.variants@[k].0@) == Some(k),
        !is_builtin(sch.variants@[k].0@),
        sch.variants@[k].0@ != "weak_object"@,
        0 <= t < sch.variants@[k].1@.len(),
        fuel > 0,
    ensures
        p_type(sch, assets, sch.variants@[k].0@, uint_bytes(t as u64) + pay_rest, fuel) == p_type(
            sch,
            assets,
            sch.variants@[k].1@[t]@,
            pay_rest,
            (fuel - 1) as nat,
        ),
{
    assert(sch.variants@[k].1.len() == sch.variants@[k].1@.len());
    lemma_uint_read_uint(t as u64, pay_rest);
    assert(((t as u64) as usize) as int == t);
}

/// What reading gives back of an integer or boolean wire value.
pub open spec fn wire_scalar(w: WireModel) -> ValueModel {
    match w {
        WireModel::Int(i) => ValueModel::I64(i),
        WireModel::Bool(b) => ValueModel::Bool(b),
        _ => ValueModel::Bool(false),
    }
}

/// An integer or boolean wire value written into a named variant of the
/// schema that has its member reads back from that variant as the member's
/// value, and the reader stops right after it.
pub proof fn lemma_named_wire_write_read(sch: SchemaModel, assets: nat, k: int, w: WireModel, rest: Seq<u8>, fuel: nat)
    requires
        0 <= k < sch.variants@.len(),
        first_named(sch.variants@, sch.variants@[k].0@) == Some(k),
        !is_builtin(sch.variants@[k].0@),
        sch.variants@[k].0@ != "weak_object"@,
        w is Int || w is Bool,
        position_of(sch.variants@[k].1@, wire_member(w)) is Some,
        fuel > 0,
    ensures
        value_out(sch, sch.variants@[k].0@, ValueModel::Wire(w)) matches Some(Ok(b)) && p_type(
            sch,
            assets,
            sch.variants@[k].0@,
            b + rest,
            fuel,
        ) == r_ok(scalar_view(wire_scalar(w)), rest),
{
    let ty = sch.variants@[k].0@;
    let members = sch.variants@[k].1@;
    let v = wire_scalar(w);
    lemma_position_of(members, wire_member(w));
    let t = position_of(members, wire_member(w))->Some_0;
    let pay = value_out(sch, scalar_slot(v)->Some_0, v)->Some_0->Ok_0;
    assert(scalar_slot(v) == Some(wire_member(w)) && wire_payload(w) == ok(pay)) by {
        reveal_strlit("i64");
        reveal_strlit("bool");
        lemma_scalar_write_read(sch, assets, v, rest, (fuel - 1) as nat);
        lemma_builtin_names();
    }
    assert(p_type(sch, assets, wire_member(w), pay + rest, (fuel - 1) as nat) == r_ok(scalar_view(v), rest)) by {
        lemma_scalar_write_read(sch, assets, v, rest, (fuel - 1) as nat);
    }
    assert(value_out(sch, ty, ValueModel::Wire(w)) == ok(uint_bytes(t as u64) + pay)) by {
        lemma_variant_write(sch, k, w);
    }
    assert(uint_bytes(t as u64) + pay + rest =~= uint_bytes(t as u64) + (pay + rest));
    lemma_variant_read(sch, assets, k, t, pay + rest, fuel);
}

/// The properties `ps` of a struct and the values `fs` line up: the same
/// names in the same order, no name twice, and each a boolean or integer
/// of its property's type.
pub open spec fn scalar_props(ps: Seq<(String, BrdbStructPropRaw)>, fs: Seq<(String, ValueModel)>) -> bool {
    &&& ps.len() == fs.len()
    &&& forall|i: int| 0 <= i < fs.len() ==> #[trigger] fs[i].0@ == ps[i].0@
    &&& forall|i: int|
        0 <= i < fs.len() ==> (#[trigger] ps[i].1 matches BrdbStructPropRaw::Type(t) && scalar_slot(fs[i].1)
            == Some(t@))
    &&& forall|i: int, j: int| 0 <= i < j < fs.len() ==> fs[i].0@ != fs[j].0@
}

/// What reading gives back of such a struct's values.
pub open spec fn scalar_fields(fs: Seq<(String, ValueModel)>) -> Seq<(Seq<char>, ReadView)> {
    fs.map_values(|f: (String, ValueModel)| (f.0@, scalar_view(f.1)))
}

proof fn lemma_first_named_unique(fs: Seq<(String, ValueModel)>, j: int)
    requires
        0 <= j < fs.len(),
        forall|a: int, b: int| 0 <= a < b < fs.len() ==> fs[a].0@ != fs[b].0@,
    ensures
        first_named(fs, fs[j].0@) == Some(j),
{
    lemma_first_named(fs, fs[j].0@);
    if let Some(k) = first_named(fs, fs[j].0@) {
        if k < j {
            assert(fs[k].0@ != fs[j].0@);
        }
    }
}

#[verifier::rlimit(50)]
#[verifier::spinoff_prover]
proof fn lemma_props_roundtrip(
    sch: SchemaModel,
    assets: nat,
    ps: Seq<(String, BrdbStructPropRaw)>,
    fields: Vec<(String, ValueModel)>,
    j: int,
    rest: Seq<u8>,
    fuel: nat,
)
    requires
        scalar_props(ps, fields@),
        0 <= j <= ps.len(),
        fuel > 0,
    ensures
        props_out(sch, ps.skip(j), ValueModel::Struct(fields)) matches Some(Ok(b)) && p_props(
            sch,
            assets,
            ps.skip(j),
            b + rest,
            fuel,
        ) == Some(Ok::<(Seq<(Seq<char>, ReadView)>, Seq<u8>), MetaErr>((scalar_fields(fields@).skip(j), rest))),
    decreases ps.len() - j,
{
    let fs = fields@;
    let v = ValueModel::Struct(fields);
    if j == ps.len() {
        assert(ps.skip(j) =~= Seq::<(String, BrdbStructPropRaw)>::empty());
        assert(scalar_fields(fs).skip(j) =~= Seq::<(Seq<char>, ReadView)>::empty());
        assert(seq![] + rest =~= rest);
    } else {
        lemma_props_roundtrip(sch, assets, ps, fields, j + 1, rest, fuel);
        let tail = props_out(sch, ps.skip(j + 1), v)->Some_0->Ok_0;
        let p = ps[j];
        assert(ps.skip(j)[0] == p);
        assert(ps.skip(j).drop_first() =~= ps.skip(j + 1));
        let t = p.1->Type_0;
        assert(p.1 matches BrdbStructPropRaw::Type(t) && scalar_slot(fs[j].1) == Some(t@));
        lemma_first_named_unique(fs, j);
        assert(fs[j].0@ == p.0@);
        lemma_scalar_write_read(sch, assets, fs[j].1, tail + rest, (fuel - 1) as nat);
        let bj = value_out(sch, t@, fs[j].1)->Some_0->Ok_0;
        assert(prop_out(sch, p.0@, p.1, v) == ok(bj));
        assert(props_out(sch, ps.skip(j), v) == ok(bj + tail));
        assert(bj + tail + rest =~= bj + (tail + rest));
        assert(p_prop(sch, assets, p.1, bj + (tail + rest), fuel) == r_ok(scalar_view(fs[j].1), tail + rest));
        assert(scalar_fields(fs).skip(j) =~= seq![(p.0@, scalar_view(fs[j].1))] + scalar_fields(fs).skip(j + 1));
    }
}

/// A struct of the schema whose properties are all booleans or integers,
/// written from a value that has each of them in order, reads back as the
/// same struct, and the reader stops right after it.
pub proof fn lemma_struct_write_read(
    sch: SchemaModel,
    assets: nat,
    k: int,
    fields: Vec<(String, ValueModel)>,
    rest: Seq<u8>,
    fuel: nat,
)
    requires
        0 <= k < sch.structs@.len(),
        first_named(sch.structs@, sch.structs@[k].0@) == Some(k),
        first_named(sch.variants@, sch.structs@[k].0@) is None,
        !is_builtin(sch.structs@[k].0@),
        sch.structs@[k].0@ != "weak_object"@,
        scalar_props(sch.structs@[k].1@, fields@),
        fuel > 0,
    ensures
        value_out(sch, sch.structs@[k].0@, ValueModel::Struct(fields)) matches Some(Ok(b)) && p_type(
            sch,
            assets,
            sch.structs@[k].0@,
            b + rest,
            fuel,
        ) == r_ok(ReadView::Struct(sch.structs@[k].0@, scalar_fields(fields@)), rest),
{
    let ty = sch.structs@[k].0@;
    let ps = sch.structs@[k].1@;
    lemma_props_roundtrip(sch, assets, ps, fields, 0, rest, fuel);
    assert(ps.skip(0) =~= ps);
    assert(scalar_fields(fields@).skip(0) =~= scalar_fields(fields@));
    assert(interned(sch, ty)) by {
        assert((sch.structs@[k]).0@ == ty);
    }
    let b = props_out(sch, ps, ValueModel::Struct(fields))->Some_0->Ok_0;
    assert(value_out(sch, ty, ValueModel::Struct(fields)) == ok(b));
    assert(p_type(sch, assets, ty, b + rest, fuel) == p_named(sch, assets, ty, b + rest, fuel));
}

/// What reading gives back of a 64-bit float written into its slot: the
/// whole number it was written as, else its bits.
pub open spec fn f64_read_back(f: F64Val) -> StoredNum {
    match f.whole {
        Some(i) => StoredNum::Int(i),
        None => StoredNum::F64Bits(f.bits),
    }
}

pub(crate) proof fn lemma_num64_of_int(i: i64, rest: Seq<u8>)
    requires
        -2147483648 <= i <= 4294967295,
    ensures
        m_num64(int_bytes(i) + rest) == Ok::<(StoredNum, Seq<u8>), MetaErr>((StoredNum::Int(i), rest)),
{
    lemma_int_roundtrip(i, rest);
    let s = int_bytes(i) + rest;
    assert(s[0] != 0xcf && s[0] != 0xd3 && s[0] != 0xca && s[0] != 0xcb);
}

/// A 64-bit float written into an `f64` slot reads back from that slot: as
/// the whole number it was written as (one that fits 32 bits, as the
/// writer's rule for whole numbers gives), else as its bits; the reader
/// stops right after it.
pub proof fn lemma_f64_write_read(sch: SchemaModel, assets: nat, f: F64Val, rest: Seq<u8>, fuel: nat)
    requires
        f.whole matches Some(i) ==> -2147483648 <= i <= 4294967295,
    ensures
        value_out(sch, "f64"@, ValueModel::F64(f)) matches Some(Ok(b)) && p_type(sch, assets, "f64"@, b + rest, fuel)
            == r_ok(ReadView::F64(f64_read_back(f)), rest),
{
    assert(value_out(sch, "f64"@, ValueModel::F64(f)) == ok(f64_bytes(f))
        && p_type(sch, assets, "f64"@, f64_bytes(f) + rest, fuel) == r_map(
        m_num64(f64_bytes(f) + rest),
        |n: StoredNum| ReadView::F64(n),
    )) by {
        lemma_f64_slot_names();
    }
    match f.whole {
        Some(i) => lemma_num64_of_int(i, rest),
        None => {
            lemma_p256_values();
            lemma_be_bytes(f.bits as nat, 8);
            let s = f64_bytes(f) + rest;
            assert(s.skip(1).take(8) =~= be_bytes(f.bits as nat, 8));
            assert(s.skip(1).skip(8) =~= rest);
        },
    }
}

proof fn lemma_f64_slot_names()
    ensures
        "f64"@ != "bool"@ && "f64"@ != "u8"@ && "f64"@ != "u16"@ && "f64"@ != "u32"@ && "f64"@ != "u64"@,
        "f64"@ != "i8"@ && "f64"@ != "i16"@ && "f64"@ != "i32"@ && "f64"@ != "i64"@ && "f64"@ != "f32"@,
{
    reveal_strlit("f64");
    reveal_strlit("f32");
    reveal_strlit("bool");
    reveal_strlit("u8");
    reveal_strlit("u16");
    reveal_strlit("u32");
    reveal_strlit("u64");
    reveal_strlit("i8");
    reveal_strlit("i16");
    reveal_strlit("i32");
    reveal_strlit("i64");
    assert("f64"@[0] != "u16"@[0]);
    assert("f64"@[0] != "u32"@[0]);
    assert("f64"@[0] != "u64"@[0]);
    assert("f64"@[0] != "i16"@[0]);
    assert("f64"@[0] != "i32"@[0]);
    assert("f64"@[0] != "i64"@[0]);
    assert("f64"@[1] != "f32"@[1]);
}

} // verus!
