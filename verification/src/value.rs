//! Writing values by a schema: each type name of the schema decides how a
//! value is laid out as MessagePack (or, in flat arrays, as little-endian
//! memory). Floats come as their bits, with the whole number to write in
//! their place where the caller found one.
use vstd::prelude::*;
use vstd::utf8::encode_utf8;

use crate::errors::BrdbSchemaError;
use crate::flat::{
    write_flat_i16, write_flat_i32, write_flat_i64, write_flat_i8, write_flat_u16, write_flat_u32,
    write_flat_u64, write_flat_u8,
};
use crate::le::{i16_le, i32_le, i64_le, i8_bits, u16_le, u32_le, u64_le};
use crate::index::lemma_map_flatten_step;
use crate::model::str_eq;
use crate::mp_int::{
    int_bytes, lemma_uint_read_uint, m_uint, u8_bytes,
    uint_bytes, write_int, write_u8, write_uint,
};
use crate::schema_meta::MetaErr;
use crate::msgpack::{
    array_header, be_bytes, bin_header, map_header, mp_write_array_len, mp_write_bin_len,
    mp_write_bool, mp_write_map_len, mp_write_str, str_header,
};
use crate::schema_meta::BrdbStructPropRaw;

verus! {

/// A 32-bit float as its bits, and the whole number that it is written as
/// where it is one: a float equal to its rounding whose saturating casts to
/// `u16` and `i16` fall short of `u16::MAX` and above `i16::MIN`. Deciding
/// that is float arithmetic, left to the caller.
pub struct F32Val {
    pub bits: u32,
    pub whole: Option<i64>,
}

/// A 64-bit float as its bits, and the whole number that it is written as
/// where it is one: a float equal to its rounding whose saturating casts to
/// `u32` and `i32` fall short of `u32::MAX` and above `i32::MIN`. Deciding
/// that is float arithmetic, left to the caller.
pub struct F64Val {
    pub bits: u64,
    pub whole: Option<i64>,
}

/// A value of a wire graph variant.
pub enum WireModel {
    Number(F64Val),
    Int(i64),
    Bool(bool),
    /// An asset reference by index; `None` is a null reference.
    Object(Option<usize>),
    Exec,
    Vector(F64Val, F64Val, F64Val),
    Rotator(F64Val, F64Val, F64Val),
    Quat(F64Val, F64Val, F64Val, F64Val),
    Str(String),
    LinearColor(F32Val, F32Val, F32Val, F32Val),
}

/// A value of a wire graph array variant: one array per element type.
pub enum WireArrayModel {
    DoubleArray(Vec<F64Val>),
    Int64Array(Vec<i64>),
    BoolArray(Vec<bool>),
    ObjectArray(Vec<Option<usize>>),
    VectorArray(Vec<(F64Val, F64Val, F64Val)>),
    RotatorArray(Vec<(F64Val, F64Val, F64Val)>),
    QuatArray(Vec<(F64Val, F64Val, F64Val, F64Val)>),
    StringArray(Vec<String>),
    LinearColorArray(Vec<(F32Val, F32Val, F32Val, F32Val)>),
}

/// A value to be written by a schema.
pub enum ValueModel {
    Nil,
    Bool(bool),
    U8(u8),
    U16(u16),
    U32(u32),
    U64(u64),
    I8(i8),
    I16(i16),
    I32(i32),
    I64(i64),
    F32(F32Val),
    F64(F64Val),
    Str(String),
    /// An asset reference by index; `None` is a null reference.
    Asset(Option<usize>),
    /// An enum value by its index.
    Enum(u64),
    /// A struct's properties by name.
    Struct(Vec<(String, ValueModel)>),
    Array(Vec<ValueModel>),
    FlatArray(Vec<ValueModel>),
    MapOf(Vec<(ValueModel, ValueModel)>),
    Wire(WireModel),
    WireArray(WireArrayModel),
}

/// The types of a schema: enums with their values, variants with their
/// member types in order, structs with their properties in order.
pub struct SchemaModel {
    pub enums: Vec<(String, Vec<(String, i32)>)>,
    pub variants: Vec<(String, Vec<String>)>,
    pub structs: Vec<(String, Vec<(String, BrdbStructPropRaw)>)>,
}

/// An error of writing, as plain values.
pub enum VErr {
    /// A value of this kind was expected.
    Expected(Seq<char>),
    UnknownType(Seq<char>),
    EnumIndex(Seq<char>, u64),
    InvalidFlat(Seq<char>),
    /// The struct value has no property of this name.
    MissingField(Seq<char>),
    Other,
}

pub open spec fn verr(e: BrdbSchemaError) -> VErr {
    match e {
        BrdbSchemaError::ExpectedType(a, _) => VErr::Expected(a@),
        BrdbSchemaError::UnknownType(t) => VErr::UnknownType(t@),
        BrdbSchemaError::EnumIndexOutOfBounds(n, i) => VErr::EnumIndex(n@, i),
        BrdbSchemaError::InvalidFlatType(t) => VErr::InvalidFlat(t@),
        BrdbSchemaError::MissingStructField(_, f) => VErr::MissingField(f@),
        _ => VErr::Other,
    }
}

/// What writing gives: the bytes, or the error; `None` where the value or
/// the schema is beyond what can be written (a length past 32 bits, or a
/// schema whose types contain themselves).
pub type WOut = Option<Result<Seq<u8>, VErr>>;

pub open spec fn ok(b: Seq<u8>) -> WOut {
    Some(Ok(b))
}

pub open spec fn fail(e: VErr) -> WOut {
    Some(Err(e))
}

/// The bytes of `a` followed by those of `b`; the first error stops.
pub open spec fn then(a: WOut, b: WOut) -> WOut {
    match a {
        Some(Ok(x)) => match b {
            Some(Ok(y)) => Some(Ok(x + y)),
            other => other,
        },
        other => other,
    }
}

/// The position of the first entry named `n`.
pub open spec fn first_named<T>(s: Seq<(String, T)>, n: Seq<char>) -> Option<int>
    decreases s.len(),
{
    if s.len() == 0 {
        None
    } else if s[0].0@ == n {
        Some(0)
    } else {
        match first_named(s.drop_first(), n) {
            Some(k) => Some(k + 1),
            None => None,
        }
    }
}

pub proof fn lemma_first_named<T>(s: Seq<(String, T)>, n: Seq<char>)
    ensures
        first_named(s, n) matches Some(k) ==> 0 <= k < s.len() && s[k].0@ == n && forall|j: int|
            0 <= j < k ==> s[j].0@ != n,
        first_named(s, n) is None ==> forall|j: int| 0 <= j < s.len() ==> s[j].0@ != n,
    decreases s.len(),
{
    if s.len() > 0 {
        lemma_first_named(s.drop_first(), n);
        assert forall|j: int| 0 < j < s.len() implies s[j] == s.drop_first()[j - 1] by {}
    }
}

/// The position of the first name `n` in a list of names.
pub open spec fn position_of(s: Seq<String>, n: Seq<char>) -> Option<int>
    decreases s.len(),
{
    if s.len() == 0 {
        None
    } else if s[0]@ == n {
        Some(0)
    } else {
        match position_of(s.drop_first(), n) {
            Some(k) => Some(k + 1),
            None => None,
        }
    }
}

pub open spec fn bool_bytes(b: bool) -> Seq<u8> {
    seq![if b { 0xc3u8 } else { 0xc2u8 }]
}

/// A float: its whole number as an integer, else the marker and its
/// big-endian bits.
pub open spec fn f32_bytes(f: F32Val) -> Seq<u8> {
    match f.whole {
        Some(i) => int_bytes(i),
        None => seq![0xcau8] + be_bytes(f.bits as nat, 4),
    }
}

pub open spec fn f64_bytes(f: F64Val) -> Seq<u8> {
    match f.whole {
        Some(i) => int_bytes(i),
        None => seq![0xcbu8] + be_bytes(f.bits as nat, 8),
    }
}

/// A string: its header and its UTF-8 bytes.
pub open spec fn str_out(s: Seq<char>) -> WOut {
    if encode_utf8(s).len() <= u32::MAX {
        ok(str_header(encode_utf8(s).len()) + encode_utf8(s))
    } else {
        None
    }
}

/// An asset reference: its index, or -1 for none.
pub open spec fn object_index(o: Option<usize>) -> i64 {
    match o {
        Some(i) => i as i64,
        None => -1i64,
    }
}

/// The wire graph variant of the old schemas: a tag, then the value.
pub open spec fn legacy_wire(w: WireModel) -> WOut {
    match w {
        WireModel::Number(f) => ok(uint_bytes(0) + f64_bytes(f)),
        WireModel::Int(i) => ok(uint_bytes(1) + int_bytes(i)),
        WireModel::Bool(b) => ok(uint_bytes(2) + bool_bytes(b)),
        WireModel::Object(o) => ok(uint_bytes(3) + int_bytes(object_index(o))),
        WireModel::Exec => ok(uint_bytes(4)),
        _ => fail(VErr::Expected("wire_graph_variant"@)),
    }
}

/// The member type that a wire value is written as in a named variant.
pub open spec fn wire_member(w: WireModel) -> Seq<char> {
    match w {
        WireModel::Number(_) => "f64"@,
        WireModel::Int(_) => "i64"@,
        WireModel::Bool(_) => "bool"@,
        WireModel::Object(_) => "weak_object"@,
        WireModel::Exec => "WireGraphExec"@,
        WireModel::Vector(..) => "Vector"@,
        WireModel::Rotator(..) => "Rotator"@,
        WireModel::Quat(..) => "Quat"@,
        WireModel::Str(_) => "str"@,
        WireModel::LinearColor(..) => "LinearColor"@,
    }
}

/// The payload of a wire value: structs are written field by field.
pub open spec fn wire_payload(w: WireModel) -> WOut {
    match w {
        WireModel::Number(f) => ok(f64_bytes(f)),
        WireModel::Int(i) => ok(int_bytes(i)),
        WireModel::Bool(b) => ok(bool_bytes(b)),
        WireModel::Object(o) => ok(int_bytes(object_index(o))),
        WireModel::Exec => ok(seq![]),
        WireModel::Vector(x, y, z) => ok(f64x3_bytes((x, y, z))),
        WireModel::Rotator(p, y, r) => ok(f64x3_bytes((p, y, r))),
        WireModel::Quat(x, y, z, w) => ok(f64x4_bytes((x, y, z, w))),
        WireModel::Str(s) => str_out(s@),
        WireModel::LinearColor(r, g, b, a) => ok(f32x4_bytes((r, g, b, a))),
    }
}

/// The tag of member `m` in variant `ty`: its position among the members.
pub open spec fn member_tag(members: Seq<String>, ty: Seq<char>, m: Seq<char>) -> WOut {
    match position_of(members, m) {
        Some(k) => ok(uint_bytes(k as u64)),
        None => fail(VErr::Expected(ty + " member"@)),
    }
}

pub open spec fn named_wire(members: Seq<String>, ty: Seq<char>, w: WireModel) -> WOut {
    then(member_tag(members, ty, wire_member(w)), wire_payload(w))
}

/// The struct that an array value is written as in a named variant.
pub open spec fn array_member(a: WireArrayModel) -> Seq<char> {
    match a {
        WireArrayModel::DoubleArray(_) => "WireGraphDoubleArray"@,
        WireArrayModel::Int64Array(_) => "WireGraphInt64Array"@,
        WireArrayModel::BoolArray(_) => "WireGraphBoolArray"@,
        WireArrayModel::ObjectArray(_) => "WireGraphObjectArray"@,
        WireArrayModel::VectorArray(_) => "WireGraphVectorArray"@,
        WireArrayModel::RotatorArray(_) => "WireGraphRotatorArray"@,
        WireArrayModel::QuatArray(_) => "WireGraphQuatArray"@,
        WireArrayModel::StringArray(_) => "WireGraphStringArray"@,
        WireArrayModel::LinearColorArray(_) => "WireGraphLinearColorArray"@,
    }
}

pub open spec fn f64x3_bytes(e: (F64Val, F64Val, F64Val)) -> Seq<u8> {
    f64_bytes(e.0) + f64_bytes(e.1) + f64_bytes(e.2)
}

pub open spec fn f64x4_bytes(e: (F64Val, F64Val, F64Val, F64Val)) -> Seq<u8> {
    f64_bytes(e.0) + f64_bytes(e.1) + f64_bytes(e.2) + f64_bytes(e.3)
}

pub open spec fn f32x4_bytes(e: (F32Val, F32Val, F32Val, F32Val)) -> Seq<u8> {
    f32_bytes(e.0) + f32_bytes(e.1) + f32_bytes(e.2) + f32_bytes(e.3)
}

pub open spec fn f64s_bytes(v: Seq<F64Val>) -> Seq<u8> {
    v.map_values(|f: F64Val| f64_bytes(f)).flatten()
}

pub open spec fn strs_out(v: Seq<String>) -> WOut
    decreases v.len(),
{
    if v.len() == 0 {
        ok(seq![])
    } else {
        then(str_out(v[0]@), strs_out(v.drop_first()))
    }
}

/// The elements of an array value, one after another.
pub open spec fn array_items(a: WireArrayModel) -> WOut {
    match a {
        WireArrayModel::DoubleArray(v) => ok(f64s_bytes(v@)),
        WireArrayModel::Int64Array(v) => ok(v@.map_values(|i: i64| int_bytes(i)).flatten()),
        WireArrayModel::BoolArray(v) => ok(v@.map_values(|b: bool| bool_bytes(b)).flatten()),
        WireArrayModel::ObjectArray(v) => ok(
            v@.map_values(|o: Option<usize>| int_bytes(object_index(o))).flatten(),
        ),
        WireArrayModel::VectorArray(v) => ok(
            v@.map_values(|e: (F64Val, F64Val, F64Val)| f64x3_bytes(e)).flatten(),
        ),
        WireArrayModel::RotatorArray(v) => ok(
            v@.map_values(|e: (F64Val, F64Val, F64Val)| f64x3_bytes(e)).flatten(),
        ),
        WireArrayModel::QuatArray(v) => ok(
            v@.map_values(|e: (F64Val, F64Val, F64Val, F64Val)| f64x4_bytes(e)).flatten(),
        ),
        WireArrayModel::StringArray(v) => strs_out(v@),
        WireArrayModel::LinearColorArray(v) => ok(
            v@.map_values(|e: (F32Val, F32Val, F32Val, F32Val)| f32x4_bytes(e)).flatten(),
        ),
    }
}

pub open spec fn array_len(a: WireArrayModel) -> nat {
    match a {
        WireArrayModel::DoubleArray(v) => v@.len(),
        WireArrayModel::Int64Array(v) => v@.len(),
        WireArrayModel::BoolArray(v) => v@.len(),
        WireArrayModel::ObjectArray(v) => v@.len(),
        WireArrayModel::VectorArray(v) => v@.len(),
        WireArrayModel::RotatorArray(v) => v@.len(),
        WireArrayModel::QuatArray(v) => v@.len(),
        WireArrayModel::StringArray(v) => v@.len(),
        WireArrayModel::LinearColorArray(v) => v@.len(),
    }
}

/// An array value in a named variant: the tag of its struct, then the one
/// `Values` array that the struct holds.
pub open spec fn named_array(members: Seq<String>, ty: Seq<char>, a: WireArrayModel) -> WOut {
    then(
        member_tag(members, ty, array_member(a)),
        if array_len(a) <= u32::MAX {
            then(ok(array_header(array_len(a))), array_items(a))
        } else {
            None
        },
    )
}

pub open spec fn is_uint_name(ty: Seq<char>) -> bool {
    ty == "u16"@ || ty == "u32"@ || ty == "u64"@
}

pub open spec fn is_int_name(ty: Seq<char>) -> bool {
    ty == "i8"@ || ty == "i16"@ || ty == "i32"@ || ty == "i64"@
}

/// Enough depth for the types of `sch` where none contains itself: one
/// more than the number of structs and variants.
pub open spec fn type_depth(sch: SchemaModel) -> nat {
    if sch.structs@.len() + sch.variants@.len() + 1 <= usize::MAX {
        sch.structs@.len() + sch.variants@.len() + 1
    } else {
        usize::MAX as nat
    }
}

/// The zero value of a type, written where a struct value lacks a property.
pub open spec fn zero_out(sch: SchemaModel, ty: Seq<char>, fuel: nat) -> WOut
    decreases fuel, 0nat,
{
    if ty == "bool"@ {
        ok(bool_bytes(false))
    } else if ty == "u8"@ {
        ok(u8_bytes(0))
    } else if is_uint_name(ty) {
        ok(uint_bytes(0))
    } else if is_int_name(ty) || ty == "f32"@ || ty == "f64"@ {
        ok(int_bytes(0))
    } else if ty == "str"@ || ty == "bundle_path_ref"@ {
        ok(str_header(0))
    } else if ty == "wire_graph_variant"@ || ty == "wire_graph_prim_math_variant"@ {
        ok(uint_bytes(0) + int_bytes(0))
    } else if ty == "class"@ || ty == "object"@ {
        ok(int_bytes(-1i64))
    } else if fuel == 0 {
        None
    } else {
        match first_named(sch.variants@, ty) {
            Some(k) => {
                let members = sch.variants@[k].1@;
                then(
                    ok(uint_bytes(0)),
                    if members.len() > 0 {
                        zero_out(sch, members[0]@, (fuel - 1) as nat)
                    } else {
                        ok(seq![])
                    },
                )
            },
            None => match first_named(sch.structs@, ty) {
                Some(k) => zero_props(sch, sch.structs@[k].1@, (fuel - 1) as nat),
                None => match first_named(sch.enums@, ty) {
                    Some(_) => ok(uint_bytes(0)),
                    None => fail(VErr::UnknownType(ty)),
                },
            },
        }
    }
}

pub open spec fn zero_props(sch: SchemaModel, ps: Seq<(String, BrdbStructPropRaw)>, fuel: nat) -> WOut
    decreases fuel, ps.len(),
{
    if ps.len() == 0 {
        ok(seq![])
    } else {
        then(
            match ps[0].1 {
                BrdbStructPropRaw::Type(t) => zero_out(sch, t@, fuel),
                BrdbStructPropRaw::Array(_) => ok(array_header(0)),
                BrdbStructPropRaw::FlatArray(_) => ok(bin_header(0)),
                BrdbStructPropRaw::MapOf(_, _) => ok(map_header(0)),
            },
            zero_props(sch, ps.drop_first(), fuel),
        )
    }
}

/// The byte size of a type laid out flat: numbers by their width, a struct
/// by the sum of its plain properties; 0 for anything else. `None` where
/// the size passes 32 bits or the types contain themselves.
pub open spec fn flat_size(sch: SchemaModel, ty: Seq<char>, fuel: nat) -> Option<nat>
    decreases fuel, 0nat,
{
    if ty == "u8"@ || ty == "i8"@ {
        Some(1)
    } else if ty == "u16"@ || ty == "i16"@ {
        Some(2)
    } else if ty == "u32"@ || ty == "i32"@ || ty == "f32"@ {
        Some(4)
    } else if ty == "u64"@ || ty == "i64"@ || ty == "f64"@ {
        Some(8)
    } else if fuel == 0 {
        None
    } else {
        match first_named(sch.structs@, ty) {
            Some(k) => flat_props_size(sch, sch.structs@[k].1@, (fuel - 1) as nat),
            None => Some(0),
        }
    }
}

pub open spec fn flat_props_size(sch: SchemaModel, ps: Seq<(String, BrdbStructPropRaw)>, fuel: nat) -> Option<nat>
    decreases fuel, ps.len(),
{
    if ps.len() == 0 {
        Some(0)
    } else {
        let a = match ps[0].1 {
            BrdbStructPropRaw::Type(t) => flat_size(sch, t@, fuel),
            _ => Some(0),
        };
        match (a, flat_props_size(sch, ps.drop_first(), fuel)) {
            (Some(x), Some(y)) => if x + y <= u32::MAX {
                Some(x + y)
            } else {
                None
            },
            _ => None,
        }
    }
}

/// A value laid out flat: numbers as their little-endian bytes, a struct as
/// its properties in the schema's order.
pub open spec fn flat_out(sch: SchemaModel, ty: Seq<char>, v: ValueModel) -> WOut
    decreases v, 1nat, 0nat,
{
    if ty == "u8"@ {
        match v {
            ValueModel::U8(x) => ok(seq![x]),
            _ => fail(VErr::Expected("u8"@)),
        }
    } else if ty == "u16"@ {
        match v {
            ValueModel::U16(x) => ok(u16_le(x)),
            _ => fail(VErr::Expected("u16"@)),
        }
    } else if ty == "u32"@ {
        match v {
            ValueModel::U32(x) => ok(u32_le(x)),
            _ => fail(VErr::Expected("u32"@)),
        }
    } else if ty == "u64"@ {
        match v {
            ValueModel::U64(x) => ok(u64_le(x)),
            _ => fail(VErr::Expected("u64"@)),
        }
    } else if ty == "i8"@ {
        match v {
            ValueModel::I8(x) => ok(seq![i8_bits(x)]),
            _ => fail(VErr::Expected("i8"@)),
        }
    } else if ty == "i16"@ {
        match v {
            ValueModel::I16(x) => ok(i16_le(x)),
            _ => fail(VErr::Expected("i16"@)),
        }
    } else if ty == "i32"@ {
        match v {
            ValueModel::I32(x) => ok(i32_le(x)),
            _ => fail(VErr::Expected("i32"@)),
        }
    } else if ty == "i64"@ {
        match v {
            ValueModel::I64(x) => ok(i64_le(x)),
            _ => fail(VErr::Expected("i64"@)),
        }
    } else if ty == "f32"@ {
        match v {
            ValueModel::F32(f) => ok(u32_le(f.bits)),
            _ => fail(VErr::Expected("f32"@)),
        }
    } else if ty == "f64"@ {
        match v {
            ValueModel::F64(f) => ok(u64_le(f.bits)),
            _ => fail(VErr::Expected("f64"@)),
        }
    } else {
        match first_named(sch.structs@, ty) {
            Some(k) => flat_props(sch, ty, sch.structs@[k].1@, v),
            None => fail(VErr::InvalidFlat(ty)),
        }
    }
}

pub open spec fn flat_props(sch: SchemaModel, sname: Seq<char>, ps: Seq<(String, BrdbStructPropRaw)>, v: ValueModel) -> WOut
    decreases v, 0nat, ps.len(),
{
    if ps.len() == 0 {
        ok(seq![])
    } else {
        match ps[0].1 {
            BrdbStructPropRaw::Type(t) => match v {
                ValueModel::Struct(fields) => match first_named(fields@, ps[0].0@) {
                    Some(k) => if 0 <= k < fields@.len() {
                        then(flat_out(sch, t@, fields@[k].1), flat_props(sch, sname, ps.drop_first(), v))
                    } else {
                        None
                    },
                    None => fail(VErr::MissingField(ps[0].0@)),
                },
                _ => fail(VErr::Expected("struct"@)),
            },
            _ => fail(VErr::InvalidFlat("flat "@ + sname + " struct property"@)),
        }
    }
}

pub open spec fn flat_items(sch: SchemaModel, ty: Seq<char>, xs: Seq<ValueModel>) -> WOut
    decreases xs.len(),
{
    if xs.len() == 0 {
        ok(seq![])
    } else {
        then(flat_out(sch, ty, xs[0]), flat_items(sch, ty, xs.drop_first()))
    }
}

/// A flat array: a binary header for all its bytes, then each item flat.
pub open spec fn flat_block(sch: SchemaModel, ty: Seq<char>, xs: Seq<ValueModel>) -> WOut {
    match flat_size(sch, ty, type_depth(sch)) {
        Some(n) => if xs.len() * n <= u32::MAX {
            then(ok(bin_header(xs.len() * n)), flat_items(sch, ty, xs))
        } else {
            None
        },
        None => None,
    }
}

/// A value written as type `ty` of the schema.
pub open spec fn value_out(sch: SchemaModel, ty: Seq<char>, v: ValueModel) -> WOut
    decreases v, 2nat, 0nat,
{
    if ty == "bool"@ {
        match v {
            ValueModel::Bool(b) => ok(bool_bytes(b)),
            _ => fail(VErr::Expected("bool"@)),
        }
    } else if ty == "u8"@ {
        match v {
            ValueModel::U8(x) => ok(u8_bytes(x as u64)),
            _ => fail(VErr::Expected("u8"@)),
        }
    } else if ty == "u16"@ {
        match v {
            ValueModel::U16(x) => ok(uint_bytes(x as u64)),
            _ => fail(VErr::Expected("u16"@)),
        }
    } else if ty == "u32"@ {
        match v {
            ValueModel::U32(x) => ok(uint_bytes(x as u64)),
            _ => fail(VErr::Expected("u32"@)),
        }
    } else if ty == "u64"@ {
        match v {
            ValueModel::U64(x) => ok(uint_bytes(x)),
            _ => fail(VErr::Expected("u64"@)),
        }
    } else if ty == "i8"@ {
        match v {
            ValueModel::I8(x) => ok(int_bytes(x as i64)),
            _ => fail(VErr::Expected("i8"@)),
        }
    } else if ty == "i16"@ {
        match v {
            ValueModel::I16(x) => ok(int_bytes(x as i64)),
            _ => fail(VErr::Expected("i16"@)),
        }
    } else if ty == "i32"@ {
        match v {
            ValueModel::I32(x) => ok(int_bytes(x as i64)),
            _ => fail(VErr::Expected("i32"@)),
        }
    } else if ty == "i64"@ {
        match v {
            ValueModel::I64(x) => ok(int_bytes(x)),
            _ => fail(VErr::Expected("i64"@)),
        }
    } else if ty == "f32"@ {
        match v {
            ValueModel::F32(f) => ok(f32_bytes(f)),
            _ => fail(VErr::Expected("f32"@)),
        }
    } else if ty == "f64"@ {
        match v {
            ValueModel::F64(f) => ok(f64_bytes(f)),
            _ => fail(VErr::Expected("f64"@)),
        }
    } else if ty == "str"@ {
        match v {
            ValueModel::Str(s) => str_out(s@),
            _ => fail(VErr::Expected("str"@)),
        }
    } else if ty == "wire_graph_variant"@ {
        match v {
            ValueModel::Wire(w) => legacy_wire(w),
            _ => fail(VErr::Expected("wire variant"@)),
        }
    } else if ty == "wire_graph_prim_math_variant"@ {
        match v {
            ValueModel::Wire(WireModel::Number(f)) => ok(uint_bytes(0) + f64_bytes(f)),
            ValueModel::Wire(WireModel::Int(i)) => ok(uint_bytes(1) + int_bytes(i)),
            ValueModel::Wire(_) => fail(VErr::Expected("wire_graph_prim_math_variant"@)),
            _ => fail(VErr::Expected("wire variant"@)),
        }
    } else if ty == "bundle_path_ref"@ {
        match v {
            ValueModel::Str(s) => str_out(s@),
            _ => ok(str_header(0)),
        }
    } else if ty == "class"@ || ty == "object"@ {
        match v {
            ValueModel::Asset(Some(i)) => ok(uint_bytes(i as u64)),
            ValueModel::Asset(None) => ok(int_bytes(-1i64)),
            _ => fail(VErr::Expected("asset"@)),
        }
    } else {
        match first_named(sch.variants@, ty) {
            Some(k) => match v {
                ValueModel::WireArray(a) => named_array(sch.variants@[k].1@, ty, a),
                ValueModel::Wire(w) => named_wire(sch.variants@[k].1@, ty, w),
                _ => fail(VErr::Expected("wire variant"@)),
            },
            None => match first_named(sch.structs@, ty) {
                Some(k) => props_out(sch, sch.structs@[k].1@, v),
                None => match first_named(sch.enums@, ty) {
                    Some(k) => match v {
                        ValueModel::Enum(e) => if (e as i32) >= (sch.enums@[k].1@.len() as i32) {
                            fail(VErr::EnumIndex(ty, (e as i32) as u64))
                        } else {
                            ok(uint_bytes((e as i32) as u64))
                        },
                        _ => fail(VErr::Expected("enum"@)),
                    },
                    None => fail(VErr::UnknownType(ty)),
                },
            },
        }
    }
}

/// The properties of a struct value in the schema's order. A property that
/// the value lacks is written as its zero value, an empty array or an
/// empty map.
pub open spec fn props_out(sch: SchemaModel, ps: Seq<(String, BrdbStructPropRaw)>, v: ValueModel) -> WOut
    decreases v, 1nat, ps.len(),
{
    if ps.len() == 0 {
        ok(seq![])
    } else {
        then(prop_out(sch, ps[0].0@, ps[0].1, v), props_out(sch, ps.drop_first(), v))
    }
}

pub open spec fn prop_out(sch: SchemaModel, name: Seq<char>, p: BrdbStructPropRaw, v: ValueModel) -> WOut
    decreases v, 1nat, 0nat,
{
    match v {
        ValueModel::Struct(fields) => {
            let f = first_named(fields@, name);
            match p {
                BrdbStructPropRaw::Type(t) => match f {
                    Some(k) => if 0 <= k < fields@.len() {
                        value_out(sch, t@, fields@[k].1)
                    } else {
                        None
                    },
                    None => zero_out(sch, t@, type_depth(sch)),
                },
                BrdbStructPropRaw::Array(t) => match f {
                    Some(k) => if 0 <= k < fields@.len() {
                        match fields@[k].1 {
                            ValueModel::Array(xs) => array_out(sch, t@, xs@),
                            ValueModel::FlatArray(xs) => array_out(sch, t@, xs@),
                            _ => ok(array_header(0)),
                        }
                    } else {
                        None
                    },
                    None => ok(array_header(0)),
                },
                BrdbStructPropRaw::FlatArray(t) => match f {
                    Some(k) => if 0 <= k < fields@.len() {
                        match fields@[k].1 {
                            ValueModel::Array(xs) => flat_block(sch, t@, xs@),
                            ValueModel::FlatArray(xs) => flat_block(sch, t@, xs@),
                            _ => ok(bin_header(0)),
                        }
                    } else {
                        None
                    },
                    None => ok(bin_header(0)),
                },
                BrdbStructPropRaw::MapOf(kt, vt) => match f {
                    Some(k) => if 0 <= k < fields@.len() {
                        match fields@[k].1 {
                            ValueModel::MapOf(ps) => if ps@.len() <= u32::MAX {
                                then(ok(map_header(ps@.len())), pairs_out(sch, kt@, vt@, ps@))
                            } else {
                                None
                            },
                            _ => ok(map_header(0)),
                        }
                    } else {
                        None
                    },
                    None => ok(map_header(0)),
                },
            }
        },
        _ => fail(VErr::Expected("struct"@)),
    }
}

/// An array: its header, then each item as type `t`.
pub open spec fn array_out(sch: SchemaModel, t: Seq<char>, xs: Seq<ValueModel>) -> WOut
    decreases xs, 1nat, 0nat,
{
    if xs.len() <= u32::MAX {
        then(ok(array_header(xs.len())), items_out(sch, t, xs))
    } else {
        None
    }
}

pub open spec fn items_out(sch: SchemaModel, t: Seq<char>, xs: Seq<ValueModel>) -> WOut
    decreases xs, 0nat, xs.len(),
{
    if xs.len() == 0 {
        ok(seq![])
    } else {
        then(value_out(sch, t, xs[0]), items_out(sch, t, xs.drop_first()))
    }
}

pub open spec fn pairs_out(sch: SchemaModel, kt: Seq<char>, vt: Seq<char>, ps: Seq<(ValueModel, ValueModel)>) -> WOut
    decreases ps, 0nat, ps.len(),
{
    if ps.len() == 0 {
        ok(seq![])
    } else {
        then(
            then(value_out(sch, kt, ps[0].0), value_out(sch, vt, ps[0].1)),
            pairs_out(sch, kt, vt, ps.drop_first()),
        )
    }
}

/// Whether writing gave what `out` says: its bytes appended to `before`,
/// or its error.
pub open spec fn written(out: WOut, r: Result<(), BrdbSchemaError>, before: Seq<u8>, after: Seq<u8>) -> bool {
    match out {
        Some(Ok(b)) => r is Ok && after == before + b,
        Some(Err(e)) => r matches Err(x) && verr(x) == e,
        None => false,
    }
}

proof fn lemma_then_ok(w: Seq<u8>, x: Seq<u8>, b: WOut)
    ensures
        then(ok(w), then(ok(x), b)) == then(ok(w + x), b),
{
    if let Some(Ok(y)) = b {
        assert(w + x + y =~= w + (x + y));
    }
}

proof fn lemma_then_empty(w: Seq<u8>)
    ensures
        then(ok(w), ok(seq![])) == ok(w),
{
    assert(w + seq![] =~= w);
}

fn push_be(buf: &mut Vec<u8>, v: u64, k: usize)
    ensures
        final(buf)@ == old(buf)@ + be_bytes(v as nat, k as nat),
    decreases k,
{
    if k == 0 {
        assert(final(buf)@ =~= old(buf)@ + be_bytes(v as nat, 0));
    } else {
        push_be(buf, v / 256, k - 1);
        buf.push((v % 256) as u8);
        assert(buf@ =~= old(buf)@ + be_bytes(v as nat, k as nat));
    }
}

fn write_f32(buf: &mut Vec<u8>, f: &F32Val)
    ensures
        final(buf)@ == old(buf)@ + f32_bytes(*f),
{
    match f.whole {
        Some(i) => {
            let _ = write_int(buf, i);
        },
        None => {
            buf.push(0xca);
            push_be(buf, f.bits as u64, 4);
            assert(buf@ =~= old(buf)@ + f32_bytes(*f));
        },
    }
}

fn write_f64(buf: &mut Vec<u8>, f: &F64Val)
    ensures
        final(buf)@ == old(buf)@ + f64_bytes(*f),
{
    match f.whole {
        Some(i) => {
            let _ = write_int(buf, i);
        },
        None => {
            buf.push(0xcb);
            push_be(buf, f.bits, 8);
            assert(buf@ =~= old(buf)@ + f64_bytes(*f));
        },
    }
}

fn write_bool(buf: &mut Vec<u8>, b: bool)
    ensures
        final(buf)@ == old(buf)@ + bool_bytes(b),
{
    mp_write_bool(buf, b);
    assert(buf@ =~= old(buf)@ + bool_bytes(b));
}

fn str_byte_len(s: &str) -> (n: usize)
    ensures
        n == encode_utf8(s@).len(),
{
    s.as_bytes().len()
}

fn write_str(buf: &mut Vec<u8>, s: &str) -> (r: Result<(), BrdbSchemaError>)
    requires
        str_out(s@) is Some,
    ensures
        written(str_out(s@), r, old(buf)@, final(buf)@),
{
    mp_write_str(buf, s);
    assert(buf@ =~= old(buf)@ + (str_header(encode_utf8(s@).len()) + encode_utf8(s@)));
    Ok(())
}

/// The position of the first entry named `n` (see [`first_named`]).
pub(crate) fn find_named<T>(v: &Vec<(String, T)>, n: &str) -> (r: Option<usize>)
    ensures
        r matches Some(k) ==> first_named(v@, n@) == Some(k as int),
        r is None ==> first_named(v@, n@) is None,
{
    proof {
        lemma_first_named(v@, n@);
    }
    let mut i: usize = 0;
    while i < v.len()
        invariant
            i <= v@.len(),
            forall|j: int| 0 <= j < i ==> v@[j].0@ != n@,
            first_named(v@, n@) matches Some(k) ==> 0 <= k < v@.len() && v@[k].0@ == n@ && forall|j: int|
                0 <= j < k ==> v@[j].0@ != n@,
            first_named(v@, n@) is None ==> forall|j: int| 0 <= j < v@.len() ==> v@[j].0@ != n@,
        decreases v@.len() - i,
    {
        if str_eq(v[i].0.as_str(), n) {
            return Some(i);
        }
        i = i + 1;
    }
    None
}

pub(crate) proof fn lemma_position_of(s: Seq<String>, n: Seq<char>)
    ensures
        position_of(s, n) matches Some(k) ==> 0 <= k < s.len() && s[k]@ == n && forall|j: int|
            0 <= j < k ==> s[j]@ != n,
        position_of(s, n) is None ==> forall|j: int| 0 <= j < s.len() ==> s[j]@ != n,
    decreases s.len(),
{
    if s.len() > 0 {
        lemma_position_of(s.drop_first(), n);
        assert forall|j: int| 0 < j < s.len() implies s[j] == s.drop_first()[j - 1] by {}
    }
}

fn find_position(v: &Vec<String>, n: &str) -> (r: Option<usize>)
    ensures
        r matches Some(k) ==> position_of(v@, n@) == Some(k as int),
        r is None ==> position_of(v@, n@) is None,
{
    proof {
        lemma_position_of(v@, n@);
    }
    let mut i: usize = 0;
    while i < v.len()
        invariant
            i <= v@.len(),
            forall|j: int| 0 <= j < i ==> v@[j]@ != n@,
            position_of(v@, n@) matches Some(k) ==> 0 <= k < v@.len() && v@[k]@ == n@ && forall|j: int|
                0 <= j < k ==> v@[j]@ != n@,
            position_of(v@, n@) is None ==> forall|j: int| 0 <= j < v@.len() ==> v@[j]@ != n@,
        decreases v@.len() - i,
    {
        if str_eq(v[i].as_str(), n) {
            return Some(i);
        }
        i = i + 1;
    }
    None
}

#[verifier::truncate]
fn usize_as_i64(i: usize) -> (r: i64)
    ensures
        r == i as i64,
{
    i as i64
}

fn object_index_of(o: Option<usize>) -> (r: i64)
    ensures
        r == object_index(o),
{
    match o {
        Some(i) => usize_as_i64(i),
        None => -1,
    }
}

fn write_f64x3(buf: &mut Vec<u8>, a: &F64Val, b: &F64Val, c: &F64Val)
    ensures
        final(buf)@ == old(buf)@ + f64x3_bytes((*a, *b, *c)),
{
    write_f64(buf, a);
    write_f64(buf, b);
    write_f64(buf, c);
    assert(buf@ =~= old(buf)@ + f64x3_bytes((*a, *b, *c)));
}

fn write_f64x4(buf: &mut Vec<u8>, a: &F64Val, b: &F64Val, c: &F64Val, d: &F64Val)
    ensures
        final(buf)@ == old(buf)@ + f64x4_bytes((*a, *b, *c, *d)),
{
    write_f64(buf, a);
    write_f64(buf, b);
    write_f64(buf, c);
    write_f64(buf, d);
    assert(buf@ =~= old(buf)@ + f64x4_bytes((*a, *b, *c, *d)));
}

fn write_f32x4(buf: &mut Vec<u8>, a: &F32Val, b: &F32Val, c: &F32Val, d: &F32Val)
    ensures
        final(buf)@ == old(buf)@ + f32x4_bytes((*a, *b, *c, *d)),
{
    write_f32(buf, a);
    write_f32(buf, b);
    write_f32(buf, c);
    write_f32(buf, d);
    assert(buf@ =~= old(buf)@ + f32x4_bytes((*a, *b, *c, *d)));
}

fn expected(kind: &str) -> (e: BrdbSchemaError)
    ensures
        verr(e) == VErr::Expected(kind@),
{
    BrdbSchemaError::ExpectedType(kind.to_owned(), String::new())
}

fn write_legacy_wire(buf: &mut Vec<u8>, w: &WireModel) -> (r: Result<(), BrdbSchemaError>)
    ensures
        written(legacy_wire(*w), r, old(buf)@, final(buf)@),
{
    match w {
        WireModel::Number(f) => {
            let _ = write_uint(buf, 0);
            write_f64(buf, f);
        },
        WireModel::Int(i) => {
            let _ = write_uint(buf, 1);
            let _ = write_int(buf, *i);
        },
        WireModel::Bool(b) => {
            let _ = write_uint(buf, 2);
            write_bool(buf, *b);
        },
        WireModel::Object(o) => {
            let _ = write_uint(buf, 3);
            let _ = write_int(buf, object_index_of(*o));
        },
        WireModel::Exec => {
            let _ = write_uint(buf, 4);
        },
        _ => {
            return Err(expected("wire_graph_variant"));
        },
    }
    assert(buf@ =~= old(buf)@ + legacy_wire(*w)->Some_0->Ok_0);
    Ok(())
}

fn write_wire_payload(buf: &mut Vec<u8>, w: &WireModel) -> (r: Result<(), BrdbSchemaError>)
    requires
        wire_payload(*w) is Some,
    ensures
        written(wire_payload(*w), r, old(buf)@, final(buf)@),
{
    match w {
        WireModel::Number(f) => write_f64(buf, f),
        WireModel::Int(i) => {
            let _ = write_int(buf, *i);
        },
        WireModel::Bool(b) => write_bool(buf, *b),
        WireModel::Object(o) => {
            let _ = write_int(buf, object_index_of(*o));
        },
        WireModel::Exec => {
            assert(buf@ =~= old(buf)@ + seq![]);
        },
        WireModel::Vector(x, y, z) => write_f64x3(buf, x, y, z),
        WireModel::Rotator(p, y, q) => write_f64x3(buf, p, y, q),
        WireModel::Quat(x, y, z, q) => write_f64x4(buf, x, y, z, q),
        WireModel::Str(t) => {
            return write_str(buf, t.as_str());
        },
        WireModel::LinearColor(a, b, c, d) => write_f32x4(buf, a, b, c, d),
    }
    Ok(())
}

fn wire_member_name(w: &WireModel) -> (n: &'static str)
    ensures
        n@ == wire_member(*w),
{
    match w {
        WireModel::Number(_) => "f64",
        WireModel::Int(_) => "i64",
        WireModel::Bool(_) => "bool",
        WireModel::Object(_) => "weak_object",
        WireModel::Exec => "WireGraphExec",
        WireModel::Vector(..) => "Vector",
        WireModel::Rotator(..) => "Rotator",
        WireModel::Quat(..) => "Quat",
        WireModel::Str(_) => "str",
        WireModel::LinearColor(..) => "LinearColor",
    }
}

fn array_member_name(a: &WireArrayModel) -> (n: &'static str)
    ensures
        n@ == array_member(*a),
{
    match a {
        WireArrayModel::DoubleArray(_) => "WireGraphDoubleArray",
        WireArrayModel::Int64Array(_) => "WireGraphInt64Array",
        WireArrayModel::BoolArray(_) => "WireGraphBoolArray",
        WireArrayModel::ObjectArray(_) => "WireGraphObjectArray",
        WireArrayModel::VectorArray(_) => "WireGraphVectorArray",
        WireArrayModel::RotatorArray(_) => "WireGraphRotatorArray",
        WireArrayModel::QuatArray(_) => "WireGraphQuatArray",
        WireArrayModel::StringArray(_) => "WireGraphStringArray",
        WireArrayModel::LinearColorArray(_) => "WireGraphLinearColorArray",
    }
}

/// Appends the tag of member `m` of variant `ty` (see [`member_tag`]).
fn write_member_tag(buf: &mut Vec<u8>, members: &Vec<String>, ty: &str, m: &str) -> (r: Result<(), BrdbSchemaError>)
    ensures
        written(member_tag(members@, ty@, m@), r, old(buf)@, final(buf)@),
{
    match find_position(members, m) {
        Some(k) => {
            let _ = write_uint(buf, k as u64);
            Ok(())
        },
        None => {
            let mut what = ty.to_owned();
            what.append(" member");
            Err(BrdbSchemaError::ExpectedType(what, m.to_owned()))
        },
    }
}

fn write_named_wire(buf: &mut Vec<u8>, members: &Vec<String>, ty: &str, w: &WireModel) -> (r: Result<(), BrdbSchemaError>)
    requires
        named_wire(members@, ty@, *w) is Some,
    ensures
        written(named_wire(members@, ty@, *w), r, old(buf)@, final(buf)@),
{
    let r1 = write_member_tag(buf, members, ty, wire_member_name(w));
    if r1.is_err() {
        return r1;
    }
    let ghost t = member_tag(members@, ty@, wire_member(*w))->Some_0->Ok_0;
    let r2 = write_wire_payload(buf, w);
    proof {
        if let Some(Ok(p)) = wire_payload(*w) {
            assert(buf@ =~= old(buf)@ + (t + p));
        }
    }
    r2
}

fn write_f64s(buf: &mut Vec<u8>, v: &Vec<F64Val>)
    ensures
        final(buf)@ == old(buf)@ + v@.map_values(|e: F64Val| f64_bytes(e)).flatten(),
{
    let ghost base = buf@;
    let ghost f = |e: F64Val| f64_bytes(e);
    let mut i: usize = 0;
    assert(v@.take(0).map_values(f) =~= Seq::<Seq<u8>>::empty());
    while i < v.len()
        invariant
            0 <= i <= v@.len(),
            f == (|e: F64Val| f64_bytes(e)),
            buf@ == base + v@.take(i as int).map_values(f).flatten(),
        decreases v@.len() - i,
    {
        proof {
            lemma_map_flatten_step(v@, f, i as int);
        }
        let ghost before = buf@;
        write_f64(buf, &v[i]);
        assert(buf@ =~= before + f(v@[i as int]));
        i = i + 1;
        assert(buf@ =~= base + v@.take(i as int).map_values(f).flatten());
    }
    assert(v@.take(v@.len() as int) =~= v@);
}

fn write_i64s(buf: &mut Vec<u8>, v: &Vec<i64>)
    ensures
        final(buf)@ == old(buf)@ + v@.map_values(|e: i64| int_bytes(e)).flatten(),
{
    let ghost base = buf@;
    let ghost f = |e: i64| int_bytes(e);
    let mut i: usize = 0;
    assert(v@.take(0).map_values(f) =~= Seq::<Seq<u8>>::empty());
    while i < v.len()
        invariant
            0 <= i <= v@.len(),
            f == (|e: i64| int_bytes(e)),
            buf@ == base + v@.take(i as int).map_values(f).flatten(),
        decreases v@.len() - i,
    {
        proof {
            lemma_map_flatten_step(v@, f, i as int);
        }
        let ghost before = buf@;
        let _ = write_int(buf, v[i]);
        assert(buf@ =~= before + f(v@[i as int]));
        i = i + 1;
        assert(buf@ =~= base + v@.take(i as int).map_values(f).flatten());
    }
    assert(v@.take(v@.len() as int) =~= v@);
}

fn write_bools(buf: &mut Vec<u8>, v: &Vec<bool>)
    ensures
        final(buf)@ == old(buf)@ + v@.map_values(|e: bool| bool_bytes(e)).flatten(),
{
    let ghost base = buf@;
    let ghost f = |e: bool| bool_bytes(e);
    let mut i: usize = 0;
    assert(v@.take(0).map_values(f) =~= Seq::<Seq<u8>>::empty());
    while i < v.len()
        invariant
            0 <= i <= v@.len(),
            f == (|e: bool| bool_bytes(e)),
            buf@ == base + v@.take(i as int).map_values(f).flatten(),
        decreases v@.len() - i,
    {
        proof {
            lemma_map_flatten_step(v@, f, i as int);
        }
        let ghost before = buf@;
        write_bool(buf, v[i]);
        assert(buf@ =~= before + f(v@[i as int]));
        i = i + 1;
        assert(buf@ =~= base + v@.take(i as int).map_values(f).flatten());
    }
    assert(v@.take(v@.len() as int) =~= v@);
}

fn write_objects(buf: &mut Vec<u8>, v: &Vec<Option<usize>>)
    ensures
        final(buf)@ == old(buf)@ + v@.map_values(|e: Option<usize>| int_bytes(object_index(e))).flatten(),
{
    let ghost base = buf@;
    let ghost f = |e: Option<usize>| int_bytes(object_index(e));
    let mut i: usize = 0;
    assert(v@.take(0).map_values(f) =~= Seq::<Seq<u8>>::empty());
    while i < v.len()
        invariant
            0 <= i <= v@.len(),
            f == (|e: Option<usize>| int_bytes(object_index(e))),
            buf@ == base + v@.take(i as int).map_values(f).flatten(),
        decreases v@.len() - i,
    {
        proof {
            lemma_map_flatten_step(v@, f, i as int);
        }
        let ghost before = buf@;
        let _ = write_int(buf, object_index_of(v[i]));
        assert(buf@ =~= before + f(v@[i as int]));
        i = i + 1;
        assert(buf@ =~= base + v@.take(i as int).map_values(f).flatten());
    }
    assert(v@.take(v@.len() as int) =~= v@);
}

fn write_f64x3s(buf: &mut Vec<u8>, v: &Vec<(F64Val, F64Val, F64Val)>)
    ensures
        final(buf)@ == old(buf)@ + v@.map_values(|e: (F64Val, F64Val, F64Val)| f64x3_bytes(e)).flatten(),
{
    let ghost base = buf@;
    let ghost f = |e: (F64Val, F64Val, F64Val)| f64x3_bytes(e);
    let mut i: usize = 0;
    assert(v@.take(0).map_values(f) =~= Seq::<Seq<u8>>::empty());
    while i < v.len()
        invariant
            0 <= i <= v@.len(),
            f == (|e: (F64Val, F64Val, F64Val)| f64x3_bytes(e)),
            buf@ == base + v@.take(i as int).map_values(f).flatten(),
        decreases v@.len() - i,
    {
        proof {
            lemma_map_flatten_step(v@, f, i as int);
        }
        let ghost before = buf@;
        write_f64x3(buf, &v[i].0, &v[i].1, &v[i].2);
        assert(buf@ =~= before + f(v@[i as int]));
        i = i + 1;
        assert(buf@ =~= base + v@.take(i as int).map_values(f).flatten());
    }
    assert(v@.take(v@.len() as int) =~= v@);
}

fn write_f64x4s(buf: &mut Vec<u8>, v: &Vec<(F64Val, F64Val, F64Val, F64Val)>)
    ensures
        final(buf)@ == old(buf)@ + v@.map_values(|e: (F64Val, F64Val, F64Val, F64Val)| f64x4_bytes(e)).flatten(),
{
    let ghost base = buf@;
    let ghost f = |e: (F64Val, F64Val, F64Val, F64Val)| f64x4_bytes(e);
    let mut i: usize = 0;
    assert(v@.take(0).map_values(f) =~= Seq::<Seq<u8>>::empty());
    while i < v.len()
        invariant
            0 <= i <= v@.len(),
            f == (|e: (F64Val, F64Val, F64Val, F64Val)| f64x4_bytes(e)),
            buf@ == base + v@.take(i as int).map_values(f).flatten(),
        decreases v@.len() - i,
    {
        proof {
            lemma_map_flatten_step(v@, f, i as int);
        }
        let ghost before = buf@;
        write_f64x4(buf, &v[i].0, &v[i].1, &v[i].2, &v[i].3);
        assert(buf@ =~= before + f(v@[i as int]));
        i = i + 1;
        assert(buf@ =~= base + v@.take(i as int).map_values(f).flatten());
    }
    assert(v@.take(v@.len() as int) =~= v@);
}

fn write_f32x4s(buf: &mut Vec<u8>, v: &Vec<(F32Val, F32Val, F32Val, F32Val)>)
    ensures
        final(buf)@ == old(buf)@ + v@.map_values(|e: (F32Val, F32Val, F32Val, F32Val)| f32x4_bytes(e)).flatten(),
{
    let ghost base = buf@;
    let ghost f = |e: (F32Val, F32Val, F32Val, F32Val)| f32x4_bytes(e);
    let mut i: usize = 0;
    assert(v@.take(0).map_values(f) =~= Seq::<Seq<u8>>::empty());
    while i < v.len()
        invariant
            0 <= i <= v@.len(),
            f == (|e: (F32Val, F32Val, F32Val, F32Val)| f32x4_bytes(e)),
            buf@ == base + v@.take(i as int).map_values(f).flatten(),
        decreases v@.len() - i,
    {
        proof {
            lemma_map_flatten_step(v@, f, i as int);
        }
        let ghost before = buf@;
        write_f32x4(buf, &v[i].0, &v[i].1, &v[i].2, &v[i].3);
        assert(buf@ =~= before + f(v@[i as int]));
        i = i + 1;
        assert(buf@ =~= base + v@.take(i as int).map_values(f).flatten());
    }
    assert(v@.take(v@.len() as int) =~= v@);
}

fn write_strs(buf: &mut Vec<u8>, v: &Vec<String>) -> (r: Result<(), BrdbSchemaError>)
    requires
        strs_out(v@) is Some,
    ensures
        written(strs_out(v@), r, old(buf)@, final(buf)@),
{
    let ghost base = buf@;
    let ghost mut w: Seq<u8> = seq![];
    let mut i: usize = 0;
    assert(v@.skip(0) =~= v@);
    proof {
        lemma_then_empty_left(strs_out(v@));
    }
    while i < v.len()
        invariant
            0 <= i <= v@.len(),
            buf@ == base + w,
            strs_out(v@) == then(ok(w), strs_out(v@.skip(i as int))),
            strs_out(v@) is Some,
        decreases v@.len() - i,
    {
        let ghost rest = v@.skip(i as int);
        assert(rest.drop_first() =~= v@.skip(i + 1));
        assert(rest[0] == v@[i as int]);
        let ghost before = buf@;
        let r = write_str(buf, v[i].as_str());
        if r.is_err() {
            return r;
        }
        proof {
            let x = str_out(v@[i as int]@)->Some_0->Ok_0;
            lemma_then_ok(w, x, strs_out(v@.skip(i + 1)));
            w = w + x;
            assert(buf@ =~= base + w);
        }
        i = i + 1;
    }
    proof {
        assert(v@.skip(i as int) =~= Seq::<String>::empty());
        lemma_then_empty(w);
    }
    Ok(())
}

proof fn lemma_then_empty_left(a: WOut)
    ensures
        then(ok(seq![]), a) == a,
{
    if let Some(Ok(y)) = a {
        assert(seq![] + y =~= y);
    }
}

fn write_array_items(buf: &mut Vec<u8>, a: &WireArrayModel) -> (r: Result<(), BrdbSchemaError>)
    requires
        array_items(*a) is Some,
    ensures
        written(array_items(*a), r, old(buf)@, final(buf)@),
{
    match a {
        WireArrayModel::DoubleArray(v) => write_f64s(buf, v),
        WireArrayModel::Int64Array(v) => write_i64s(buf, v),
        WireArrayModel::BoolArray(v) => write_bools(buf, v),
        WireArrayModel::ObjectArray(v) => write_objects(buf, v),
        WireArrayModel::VectorArray(v) => write_f64x3s(buf, v),
        WireArrayModel::RotatorArray(v) => write_f64x3s(buf, v),
        WireArrayModel::QuatArray(v) => write_f64x4s(buf, v),
        WireArrayModel::StringArray(v) => {
            return write_strs(buf, v);
        },
        WireArrayModel::LinearColorArray(v) => write_f32x4s(buf, v),
    }
    Ok(())
}

fn array_len_of(a: &WireArrayModel) -> (n: usize)
    ensures
        n == array_len(*a),
{
    match a {
        WireArrayModel::DoubleArray(v) => v.len(),
        WireArrayModel::Int64Array(v) => v.len(),
        WireArrayModel::BoolArray(v) => v.len(),
        WireArrayModel::ObjectArray(v) => v.len(),
        WireArrayModel::VectorArray(v) => v.len(),
        WireArrayModel::RotatorArray(v) => v.len(),
        WireArrayModel::QuatArray(v) => v.len(),
        WireArrayModel::StringArray(v) => v.len(),
        WireArrayModel::LinearColorArray(v) => v.len(),
    }
}

fn write_named_array(buf: &mut Vec<u8>, members: &Vec<String>, ty: &str, a: &WireArrayModel) -> (r: Result<(), BrdbSchemaError>)
    requires
        named_array(members@, ty@, *a) is Some,
    ensures
        written(named_array(members@, ty@, *a), r, old(buf)@, final(buf)@),
{
    let r1 = write_member_tag(buf, members, ty, array_member_name(a));
    if r1.is_err() {
        return r1;
    }
    let ghost t = member_tag(members@, ty@, array_member(*a))->Some_0->Ok_0;
    let n = array_len_of(a);
    mp_write_array_len(buf, n as u32);
    let ghost h = array_header(array_len(*a));
    let r2 = write_array_items(buf, a);
    proof {
        if let Some(Ok(p)) = array_items(*a) {
            assert(buf@ =~= old(buf)@ + (t + (h + p)));
        }
    }
    r2
}

fn is_uint_ty(ty: &str) -> (b: bool)
    ensures
        b == is_uint_name(ty@),
{
    str_eq(ty, "u16") || str_eq(ty, "u32") || str_eq(ty, "u64")
}

fn is_int_ty(ty: &str) -> (b: bool)
    ensures
        b == is_int_name(ty@),
{
    str_eq(ty, "i8") || str_eq(ty, "i16") || str_eq(ty, "i32") || str_eq(ty, "i64")
}

pub(crate) fn depth_of(sch: &SchemaModel) -> (d: usize)
    ensures
        d == type_depth(*sch),
{
    let a = sch.structs.len();
    let b = sch.variants.len();
    if a < usize::MAX - b {
        a + b + 1
    } else {
        usize::MAX
    }
}

fn unknown_type(ty: &str) -> (e: BrdbSchemaError)
    ensures
        verr(e) == VErr::UnknownType(ty@),
{
    BrdbSchemaError::UnknownType(ty.to_owned())
}

/// Appends the zero value of `ty` (see [`zero_out`]).
fn write_zero(sch: &SchemaModel, buf: &mut Vec<u8>, ty: &str, fuel: usize) -> (r: Result<(), BrdbSchemaError>)
    requires
        zero_out(*sch, ty@, fuel as nat) is Some,
    ensures
        written(zero_out(*sch, ty@, fuel as nat), r, old(buf)@, final(buf)@),
    decreases fuel, 0nat,
{
    if str_eq(ty, "bool") {
        write_bool(buf, false);
    } else if str_eq(ty, "u8") {
        let _ = write_u8(buf, 0);
    } else if is_uint_ty(ty) {
        let _ = write_uint(buf, 0);
    } else if is_int_ty(ty) || str_eq(ty, "f32") || str_eq(ty, "f64") {
        let _ = write_int(buf, 0);
    } else if str_eq(ty, "str") || str_eq(ty, "bundle_path_ref") {
        proof {
            reveal_strlit("");
            assert(encode_utf8(""@) =~= seq![]);
        }
        let r = write_str(buf, "");
        assert(buf@ =~= old(buf)@ + str_header(0));
        return r;
    } else if str_eq(ty, "wire_graph_variant") || str_eq(ty, "wire_graph_prim_math_variant") {
        let _ = write_uint(buf, 0);
        let _ = write_int(buf, 0);
        assert(buf@ =~= old(buf)@ + (uint_bytes(0) + int_bytes(0)));
    } else if str_eq(ty, "class") || str_eq(ty, "object") {
        let _ = write_int(buf, -1);
    } else if fuel == 0 {
        return Err(unknown_type(ty));
    } else {
        match find_named(&sch.variants, ty) {
            Some(k) => {
                proof {
                    lemma_first_named(sch.variants@, ty@);
                }
                let members = &sch.variants[k].1;
                let _ = write_uint(buf, 0);
                if members.len() > 0 {
                    let ghost mid = buf@;
                    let r = write_zero(sch, buf, members[0].as_str(), fuel - 1);
                    proof {
                        if let Some(Ok(p)) = zero_out(*sch, members@[0]@, (fuel - 1) as nat) {
                            assert(buf@ =~= old(buf)@ + (uint_bytes(0) + p));
                        }
                    }
                    return r;
                } else {
                    assert(buf@ =~= old(buf)@ + (uint_bytes(0) + seq![]));
                }
            },
            None => match find_named(&sch.structs, ty) {
                Some(k) => {
                    proof {
                        lemma_first_named(sch.structs@, ty@);
                    }
                    return write_zero_props(sch, buf, &sch.structs[k].1, fuel - 1);
                },
                None => match find_named(&sch.enums, ty) {
                    Some(_) => {
                        let _ = write_uint(buf, 0);
                    },
                    None => {
                        return Err(unknown_type(ty));
                    },
                },
            },
        }
    }
    Ok(())
}

fn write_zero_props(sch: &SchemaModel, buf: &mut Vec<u8>, ps: &Vec<(String, BrdbStructPropRaw)>, fuel: usize) -> (r: Result<(), BrdbSchemaError>)
    requires
        zero_props(*sch, ps@, fuel as nat) is Some,
    ensures
        written(zero_props(*sch, ps@, fuel as nat), r, old(buf)@, final(buf)@),
    decreases fuel, 1nat,
{
    let ghost base = buf@;
    let ghost total = zero_props(*sch, ps@, fuel as nat);
    let ghost mut w: Seq<u8> = seq![];
    let mut i: usize = 0;
    assert(ps@.skip(0) =~= ps@);
    proof {
        lemma_then_empty_left(total);
    }
    while i < ps.len()
        invariant
            0 <= i <= ps@.len(),
            buf@ == base + w,
            total == zero_props(*sch, ps@, fuel as nat),
            total == then(ok(w), zero_props(*sch, ps@.skip(i as int), fuel as nat)),
            total is Some,
        decreases ps@.len() - i,
    {
        let ghost rest = ps@.skip(i as int);
        assert(rest.drop_first() =~= ps@.skip(i + 1));
        assert(rest[0] == ps@[i as int]);
        let ghost before = buf@;
        let r = match &ps[i].1 {
            BrdbStructPropRaw::Type(t) => write_zero(sch, buf, t.as_str(), fuel),
            BrdbStructPropRaw::Array(_) => {
                mp_write_array_len(buf, 0);
                Ok(())
            },
            BrdbStructPropRaw::FlatArray(_) => {
                mp_write_bin_len(buf, 0);
                Ok(())
            },
            BrdbStructPropRaw::MapOf(_, _) => {
                mp_write_map_len(buf, 0);
                Ok(())
            },
        };
        let ghost pr = match ps@[i as int].1 {
            BrdbStructPropRaw::Type(t) => zero_out(*sch, t@, fuel as nat),
            BrdbStructPropRaw::Array(_) => ok(array_header(0)),
            BrdbStructPropRaw::FlatArray(_) => ok(bin_header(0)),
            BrdbStructPropRaw::MapOf(_, _) => ok(map_header(0)),
        };
        assert(written(pr, r, before, buf@));
        if r.is_err() {
            return r;
        }
        proof {
            let x = pr->Some_0->Ok_0;
            lemma_then_ok(w, x, zero_props(*sch, ps@.skip(i + 1), fuel as nat));
            w = w + x;
            assert(buf@ =~= base + w);
        }
        i = i + 1;
    }
    proof {
        assert(ps@.skip(i as int) =~= Seq::<(String, BrdbStructPropRaw)>::empty());
        lemma_then_empty(w);
    }
    Ok(())
}

/// The flat byte size of `ty` (see [`flat_size`]).
pub(crate) fn flat_size_of(sch: &SchemaModel, ty: &str, fuel: usize) -> (r: Option<u64>)
    ensures
        r matches Some(n) ==> flat_size(*sch, ty@, fuel as nat) == Some(n as nat),
        r is None ==> flat_size(*sch, ty@, fuel as nat) is None,
    decreases fuel, 0nat, 0nat,
{
    if str_eq(ty, "u8") || str_eq(ty, "i8") {
        Some(1)
    } else if str_eq(ty, "u16") || str_eq(ty, "i16") {
        Some(2)
    } else if str_eq(ty, "u32") || str_eq(ty, "i32") || str_eq(ty, "f32") {
        Some(4)
    } else if str_eq(ty, "u64") || str_eq(ty, "i64") || str_eq(ty, "f64") {
        Some(8)
    } else if fuel == 0 {
        None
    } else {
        match find_named(&sch.structs, ty) {
            Some(k) => {
                proof {
                    lemma_first_named(sch.structs@, ty@);
                }
                let ps = &sch.structs[k].1;
                assert(ps@.skip(0) =~= ps@);
                flat_props_size_from(sch, ps, 0, fuel - 1)
            },
            None => Some(0),
        }
    }
}

fn flat_props_size_from(sch: &SchemaModel, ps: &Vec<(String, BrdbStructPropRaw)>, i: usize, fuel: usize) -> (r: Option<u64>)
    requires
        i <= ps@.len(),
    ensures
        r matches Some(n) ==> flat_props_size(*sch, ps@.skip(i as int), fuel as nat) == Some(n as nat),
        r is None ==> flat_props_size(*sch, ps@.skip(i as int), fuel as nat) is None,
    decreases fuel, 1nat, ps@.len() - i,
{
    if i == ps.len() {
        assert(ps@.skip(i as int) =~= Seq::<(String, BrdbStructPropRaw)>::empty());
        return Some(0);
    }
    let ghost rest = ps@.skip(i as int);
    assert(rest.drop_first() =~= ps@.skip(i + 1));
    assert(rest[0] == ps@[i as int]);
    let a = match &ps[i].1 {
        BrdbStructPropRaw::Type(t) => flat_size_of(sch, t.as_str(), fuel),
        _ => Some(0),
    };
    let b = flat_props_size_from(sch, ps, i + 1, fuel);
    match (a, b) {
        (Some(x), Some(y)) => {
            if x <= 4294967295 && y <= 4294967295 - x {
                Some(x + y)
            } else {
                None
            }
        },
        _ => None,
    }
}

/// Appends `v` laid out flat as `ty` (see [`flat_out`]).
#[verifier::rlimit(60)]
#[verifier::spinoff_prover]
fn write_flat_value(sch: &SchemaModel, buf: &mut Vec<u8>, ty: &str, v: &ValueModel) -> (r: Result<(), BrdbSchemaError>)
    requires
        flat_out(*sch, ty@, *v) is Some,
    ensures
        written(flat_out(*sch, ty@, *v), r, old(buf)@, final(buf)@),
    decreases *v, 1nat,
{
    if str_eq(ty, "u8") {
        match v {
            ValueModel::U8(x) => {
                let r = write_flat_u8(buf, *x);
                assert(buf@ =~= old(buf)@ + seq![*x]);
                r
            },
            _ => Err(expected("u8")),
        }
    } else if str_eq(ty, "u16") {
        match v {
            ValueModel::U16(x) => write_flat_u16(buf, *x),
            _ => Err(expected("u16")),
        }
    } else if str_eq(ty, "u32") {
        match v {
            ValueModel::U32(x) => write_flat_u32(buf, *x),
            _ => Err(expected("u32")),
        }
    } else if str_eq(ty, "u64") {
        match v {
            ValueModel::U64(x) => write_flat_u64(buf, *x),
            _ => Err(expected("u64")),
        }
    } else if str_eq(ty, "i8") {
        match v {
            ValueModel::I8(x) => {
                let r = write_flat_i8(buf, *x);
                assert(buf@ =~= old(buf)@ + seq![i8_bits(*x)]);
                r
            },
            _ => Err(expected("i8")),
        }
    } else if str_eq(ty, "i16") {
        match v {
            ValueModel::I16(x) => write_flat_i16(buf, *x),
            _ => Err(expected("i16")),
        }
    } else if str_eq(ty, "i32") {
        match v {
            ValueModel::I32(x) => write_flat_i32(buf, *x),
            _ => Err(expected("i32")),
        }
    } else if str_eq(ty, "i64") {
        match v {
            ValueModel::I64(x) => write_flat_i64(buf, *x),
            _ => Err(expected("i64")),
        }
    } else if str_eq(ty, "f32") {
        match v {
            ValueModel::F32(f) => write_flat_u32(buf, f.bits),
            _ => Err(expected("f32")),
        }
    } else if str_eq(ty, "f64") {
        match v {
            ValueModel::F64(f) => write_flat_u64(buf, f.bits),
            _ => Err(expected("f64")),
        }
    } else {
        match find_named(&sch.structs, ty) {
            Some(k) => {
                proof {
                    lemma_first_named(sch.structs@, ty@);
                }
                write_flat_props(sch, buf, ty, &sch.structs[k].1, v)
            },
            None => Err(BrdbSchemaError::InvalidFlatType(ty.to_owned())),
        }
    }
}

fn write_flat_props(sch: &SchemaModel, buf: &mut Vec<u8>, sname: &str, ps: &Vec<(String, BrdbStructPropRaw)>, v: &ValueModel) -> (r: Result<(), BrdbSchemaError>)
    requires
        flat_props(*sch, sname@, ps@, *v) is Some,
    ensures
        written(flat_props(*sch, sname@, ps@, *v), r, old(buf)@, final(buf)@),
    decreases *v, 0nat,
{
    let ghost base = buf@;
    let ghost total = flat_props(*sch, sname@, ps@, *v);
    let ghost mut w: Seq<u8> = seq![];
    let mut i: usize = 0;
    assert(ps@.skip(0) =~= ps@);
    proof {
        lemma_then_empty_left(total);
    }
    while i < ps.len()
        invariant
            0 <= i <= ps@.len(),
            buf@ == base + w,
            total == flat_props(*sch, sname@, ps@, *v),
            total == then(ok(w), flat_props(*sch, sname@, ps@.skip(i as int), *v)),
            total is Some,
        decreases ps@.len() - i,
    {
        let ghost rest = ps@.skip(i as int);
        assert(rest.drop_first() =~= ps@.skip(i + 1));
        assert(rest[0] == ps@[i as int]);
        match &ps[i].1 {
            BrdbStructPropRaw::Type(t) => {
                match v {
                    ValueModel::Struct(fields) => {
                        match find_named(fields, ps[i].0.as_str()) {
                            Some(k) => {
                                proof {
                                    lemma_first_named(fields@, ps@[i as int].0@);
                                }
                                let ghost before = buf@;
                                let r = write_flat_value(sch, buf, t.as_str(), &fields[k].1);
                                if r.is_err() {
                                    return r;
                                }
                                proof {
                                    let x = flat_out(*sch, t@, fields@[k as int].1)->Some_0->Ok_0;
                                    lemma_then_ok(w, x, flat_props(*sch, sname@, ps@.skip(i + 1), *v));
                                    w = w + x;
                                    assert(buf@ =~= base + w);
                                }
                            },
                            None => {
                                return Err(
                                    BrdbSchemaError::MissingStructField(sname.to_owned(), ps[i].0.clone()),
                                );
                            },
                        }
                    },
                    _ => {
                        return Err(expected("struct"));
                    },
                }
            },
            _ => {
                let mut what = "flat ".to_owned();
                what.append(sname);
                what.append(" struct property");
                return Err(BrdbSchemaError::InvalidFlatType(what));
            },
        }
        i = i + 1;
    }
    proof {
        assert(ps@.skip(i as int) =~= Seq::<(String, BrdbStructPropRaw)>::empty());
        lemma_then_empty(w);
    }
    Ok(())
}

fn write_flat_items(sch: &SchemaModel, buf: &mut Vec<u8>, ty: &str, xs: &Vec<ValueModel>) -> (r: Result<(), BrdbSchemaError>)
    requires
        flat_items(*sch, ty@, xs@) is Some,
    ensures
        written(flat_items(*sch, ty@, xs@), r, old(buf)@, final(buf)@),
{
    let ghost base = buf@;
    let ghost total = flat_items(*sch, ty@, xs@);
    let ghost mut w: Seq<u8> = seq![];
    let mut i: usize = 0;
    assert(xs@.skip(0) =~= xs@);
    proof {
        lemma_then_empty_left(total);
    }
    while i < xs.len()
        invariant
            0 <= i <= xs@.len(),
            buf@ == base + w,
            total == flat_items(*sch, ty@, xs@),
            total == then(ok(w), flat_items(*sch, ty@, xs@.skip(i as int))),
            total is Some,
        decreases xs@.len() - i,
    {
        let ghost rest = xs@.skip(i as int);
        assert(rest.drop_first() =~= xs@.skip(i + 1));
        assert(rest[0] == xs@[i as int]);
        let r = write_flat_value(sch, buf, ty, &xs[i]);
        if r.is_err() {
            return r;
        }
        proof {
            let x = flat_out(*sch, ty@, xs@[i as int])->Some_0->Ok_0;
            lemma_then_ok(w, x, flat_items(*sch, ty@, xs@.skip(i + 1)));
            w = w + x;
            assert(buf@ =~= base + w);
        }
        i = i + 1;
    }
    proof {
        assert(xs@.skip(i as int) =~= Seq::<ValueModel>::empty());
        lemma_then_empty(w);
    }
    Ok(())
}

/// Appends a flat array (see [`flat_block`]).
fn write_flat_block(sch: &SchemaModel, buf: &mut Vec<u8>, ty: &str, xs: &Vec<ValueModel>) -> (r: Result<(), BrdbSchemaError>)
    requires
        flat_block(*sch, ty@, xs@) is Some,
    ensures
        written(flat_block(*sch, ty@, xs@), r, old(buf)@, final(buf)@),
{
    let d = depth_of(sch);
    let size = flat_size_of(sch, ty, d);
    match size {
        Some(n) => {
            let total = (xs.len() as u64) * n;
            mp_write_bin_len(buf, total as u32);
            let ghost h = bin_header(xs@.len() * (n as nat));
            assert(h == bin_header(total as nat));
            let r = write_flat_items(sch, buf, ty, xs);
            proof {
                if let Some(Ok(p)) = flat_items(*sch, ty@, xs@) {
                    assert(buf@ =~= old(buf)@ + (h + p));
                }
            }
            r
        },
        None => Err(unknown_type(ty)),
    }
}

/// Appends `v` written as type `ty` of the schema `sch` (see
/// [`value_out`]): the bytes where it can be written, else the error. The
/// value is required to be one that can be written at all (no length past
/// 32 bits, no missing property of a type that contains itself).
#[verifier::rlimit(80)]
#[verifier::spinoff_prover]
pub fn write_brdb(sch: &SchemaModel, buf: &mut Vec<u8>, ty: &str, v: &ValueModel) -> (r: Result<(), BrdbSchemaError>)
    requires
        value_out(*sch, ty@, *v) is Some,
    ensures
        written(value_out(*sch, ty@, *v), r, old(buf)@, final(buf)@),
    decreases *v, 2nat, 0nat,
{
    if str_eq(ty, "bool") {
        match v {
            ValueModel::Bool(b) => write_bool(buf, *b),
            _ => {
                return Err(expected("bool"));
            },
        }
    } else if str_eq(ty, "u8") {
        match v {
            ValueModel::U8(x) => {
                let _ = write_u8(buf, *x as u64);
            },
            _ => {
                return Err(expected("u8"));
            },
        }
    } else if str_eq(ty, "u16") {
        match v {
            ValueModel::U16(x) => {
                let _ = write_uint(buf, *x as u64);
            },
            _ => {
                return Err(expected("u16"));
            },
        }
    } else if str_eq(ty, "u32") {
        match v {
            ValueModel::U32(x) => {
                let _ = write_uint(buf, *x as u64);
            },
            _ => {
                return Err(expected("u32"));
            },
        }
    } else if str_eq(ty, "u64") {
        match v {
            ValueModel::U64(x) => {
                let _ = write_uint(buf, *x);
            },
            _ => {
                return Err(expected("u64"));
            },
        }
    } else if str_eq(ty, "i8") {
        match v {
            ValueModel::I8(x) => {
                let _ = write_int(buf, *x as i64);
            },
            _ => {
                return Err(expected("i8"));
            },
        }
    } else if str_eq(ty, "i16") {
        match v {
            ValueModel::I16(x) => {
                let _ = write_int(buf, *x as i64);
            },
            _ => {
                return Err(expected("i16"));
            },
        }
    } else if str_eq(ty, "i32") {
        match v {
            ValueModel::I32(x) => {
                let _ = write_int(buf, *x as i64);
            },
            _ => {
                return Err(expected("i32"));
            },
        }
    } else if str_eq(ty, "i64") {
        match v {
            ValueModel::I64(x) => {
                let _ = write_int(buf, *x);
            },
            _ => {
                return Err(expected("i64"));
            },
        }
    } else if str_eq(ty, "f32") {
        match v {
            ValueModel::F32(f) => write_f32(buf, f),
            _ => {
                return Err(expected("f32"));
            },
        }
    } else if str_eq(ty, "f64") {
        match v {
            ValueModel::F64(f) => write_f64(buf, f),
            _ => {
                return Err(expected("f64"));
            },
        }
    } else if str_eq(ty, "str") {
        match v {
            ValueModel::Str(t) => {
                return write_str(buf, t.as_str());
            },
            _ => {
                return Err(expected("str"));
            },
        }
    } else if str_eq(ty, "wire_graph_variant") {
        match v {
            ValueModel::Wire(w) => {
                return write_legacy_wire(buf, w);
            },
            _ => {
                return Err(expected("wire variant"));
            },
        }
    } else if str_eq(ty, "wire_graph_prim_math_variant") {
        match v {
            ValueModel::Wire(WireModel::Number(f)) => {
                let _ = write_uint(buf, 0);
                write_f64(buf, f);
                assert(buf@ =~= old(buf)@ + (uint_bytes(0) + f64_bytes(*f)));
            },
            ValueModel::Wire(WireModel::Int(i)) => {
                let _ = write_uint(buf, 1);
                let _ = write_int(buf, *i);
                assert(buf@ =~= old(buf)@ + (uint_bytes(1) + int_bytes(*i)));
            },
            ValueModel::Wire(_) => {
                return Err(expected("wire_graph_prim_math_variant"));
            },
            _ => {
                return Err(expected("wire variant"));
            },
        }
    } else if str_eq(ty, "bundle_path_ref") {
        match v {
            ValueModel::Str(t) => {
                return write_str(buf, t.as_str());
            },
            _ => {
                proof {
                    reveal_strlit("");
                    assert(encode_utf8(""@) =~= seq![]);
                }
                let r = write_str(buf, "");
                assert(buf@ =~= old(buf)@ + str_header(0));
                return r;
            },
        }
    } else if str_eq(ty, "class") || str_eq(ty, "object") {
        match v {
            ValueModel::Asset(Some(i)) => {
                let _ = write_uint(buf, *i as u64);
            },
            ValueModel::Asset(None) => {
                let _ = write_int(buf, -1);
            },
            _ => {
                return Err(expected("asset"));
            },
        }
    } else {
        return write_named(sch, buf, ty, v);
    }
    Ok(())
}

/// The types that the schema names: variants, structs and enums.
#[verifier::rlimit(40)]
fn write_named(sch: &SchemaModel, buf: &mut Vec<u8>, ty: &str, v: &ValueModel) -> (r: Result<(), BrdbSchemaError>)
    requires
        !(ty@ == "bool"@ || ty@ == "u8"@ || ty@ == "u16"@ || ty@ == "u32"@ || ty@ == "u64"@ || ty@ == "i8"@
            || ty@ == "i16"@ || ty@ == "i32"@ || ty@ == "i64"@ || ty@ == "f32"@ || ty@ == "f64"@ || ty@
            == "str"@ || ty@ == "wire_graph_variant"@ || ty@ == "wire_graph_prim_math_variant"@ || ty@
            == "bundle_path_ref"@ || ty@ == "class"@ || ty@ == "object"@),
        value_out(*sch, ty@, *v) is Some,
    ensures
        written(value_out(*sch, ty@, *v), r, old(buf)@, final(buf)@),
    decreases *v, 1nat, 1nat,
{
    match find_named(&sch.variants, ty) {
        Some(k) => {
            proof {
                lemma_first_named(sch.variants@, ty@);
            }
            match v {
                ValueModel::WireArray(a) => write_named_array(buf, &sch.variants[k].1, ty, a),
                ValueModel::Wire(w) => write_named_wire(buf, &sch.variants[k].1, ty, w),
                _ => Err(expected("wire variant")),
            }
        },
        None => match find_named(&sch.structs, ty) {
            Some(k) => {
                proof {
                    lemma_first_named(sch.structs@, ty@);
                }
                write_props(sch, buf, &sch.structs[k].1, v)
            },
            None => match find_named(&sch.enums, ty) {
                Some(k) => {
                    proof {
                        lemma_first_named(sch.enums@, ty@);
                    }
                    match v {
                        ValueModel::Enum(e) => {
                            let ev = u64_as_i32(*e);
                            let n = usize_as_i32(sch.enums[k].1.len());
                            if ev >= n {
                                Err(BrdbSchemaError::EnumIndexOutOfBounds(ty.to_owned(), i32_as_u64(ev)))
                            } else {
                                let _ = write_uint(buf, i32_as_u64(ev));
                                Ok(())
                            }
                        },
                        _ => Err(expected("enum")),
                    }
                },
                None => Err(unknown_type(ty)),
            },
        },
    }
}

#[verifier::truncate]
fn u64_as_i32(x: u64) -> (r: i32)
    ensures
        r == x as i32,
{
    x as i32
}

#[verifier::truncate]
fn usize_as_i32(x: usize) -> (r: i32)
    ensures
        r == x as i32,
{
    x as i32
}

#[verifier::truncate]
fn i32_as_u64(x: i32) -> (r: u64)
    ensures
        r == x as u64,
{
    x as u64
}

fn write_props(sch: &SchemaModel, buf: &mut Vec<u8>, ps: &Vec<(String, BrdbStructPropRaw)>, v: &ValueModel) -> (r: Result<(), BrdbSchemaError>)
    requires
        props_out(*sch, ps@, *v) is Some,
    ensures
        written(props_out(*sch, ps@, *v), r, old(buf)@, final(buf)@),
    decreases *v, 1nat, 0nat,
{
    let ghost base = buf@;
    let ghost total = props_out(*sch, ps@, *v);
    let ghost mut w: Seq<u8> = seq![];
    let mut i: usize = 0;
    assert(ps@.skip(0) =~= ps@);
    proof {
        lemma_then_empty_left(total);
    }
    while i < ps.len()
        invariant
            0 <= i <= ps@.len(),
            buf@ == base + w,
            total == props_out(*sch, ps@, *v),
            total == then(ok(w), props_out(*sch, ps@.skip(i as int), *v)),
            total is Some,
        decreases ps@.len() - i,
    {
        let ghost rest = ps@.skip(i as int);
        assert(rest.drop_first() =~= ps@.skip(i + 1));
        assert(rest[0] == ps@[i as int]);
        let r = write_prop(sch, buf, ps[i].0.as_str(), &ps[i].1, v);
        if r.is_err() {
            return r;
        }
        proof {
            let x = prop_out(*sch, ps@[i as int].0@, ps@[i as int].1, *v)->Some_0->Ok_0;
            lemma_then_ok(w, x, props_out(*sch, ps@.skip(i + 1), *v));
            w = w + x;
            assert(buf@ =~= base + w);
        }
        i = i + 1;
    }
    proof {
        assert(ps@.skip(i as int) =~= Seq::<(String, BrdbStructPropRaw)>::empty());
        lemma_then_empty(w);
    }
    Ok(())
}

#[verifier::rlimit(60)]
#[verifier::spinoff_prover]
fn write_prop(sch: &SchemaModel, buf: &mut Vec<u8>, name: &str, p: &BrdbStructPropRaw, v: &ValueModel) -> (r: Result<(), BrdbSchemaError>)
    requires
        prop_out(*sch, name@, *p, *v) is Some,
    ensures
        written(prop_out(*sch, name@, *p, *v), r, old(buf)@, final(buf)@),
    decreases *v, 0nat, 0nat,
{
    match v {
        ValueModel::Struct(fields) => {
            let f = find_named(fields, name);
            proof {
                lemma_first_named(fields@, name@);
            }
            match p {
                BrdbStructPropRaw::Type(t) => match f {
                    Some(k) => write_brdb(sch, buf, t.as_str(), &fields[k].1),
                    None => {
                        let d = depth_of(sch);
                        write_zero(sch, buf, t.as_str(), d)
                    },
                },
                BrdbStructPropRaw::Array(t) => {
                    match f {
                        Some(k) => match &fields[k].1 {
                            ValueModel::Array(xs) => {
                                return write_array(sch, buf, t.as_str(), xs);
                            },
                            ValueModel::FlatArray(xs) => {
                                return write_array(sch, buf, t.as_str(), xs);
                            },
                            _ => mp_write_array_len(buf, 0),
                        },
                        None => mp_write_array_len(buf, 0),
                    }
                    Ok(())
                },
                BrdbStructPropRaw::FlatArray(t) => {
                    match f {
                        Some(k) => match &fields[k].1 {
                            ValueModel::Array(xs) => {
                                return write_flat_block(sch, buf, t.as_str(), xs);
                            },
                            ValueModel::FlatArray(xs) => {
                                return write_flat_block(sch, buf, t.as_str(), xs);
                            },
                            _ => mp_write_bin_len(buf, 0),
                        },
                        None => mp_write_bin_len(buf, 0),
                    }
                    Ok(())
                },
                BrdbStructPropRaw::MapOf(kt, vt) => {
                    match f {
                        Some(k) => match &fields[k].1 {
                            ValueModel::MapOf(ps) => {
                                mp_write_map_len(buf, ps.len() as u32);
                                let ghost h = map_header(ps@.len());
                                let r = write_pairs(sch, buf, kt.as_str(), vt.as_str(), ps);
                                proof {
                                    if let Some(Ok(b)) = pairs_out(*sch, kt@, vt@, ps@) {
                                        assert(buf@ =~= old(buf)@ + (h + b));
                                    }
                                }
                                return r;
                            },
                            _ => mp_write_map_len(buf, 0),
                        },
                        None => mp_write_map_len(buf, 0),
                    }
                    Ok(())
                },
            }
        },
        _ => Err(expected("struct")),
    }
}

fn write_array(sch: &SchemaModel, buf: &mut Vec<u8>, t: &str, xs: &Vec<ValueModel>) -> (r: Result<(), BrdbSchemaError>)
    requires
        array_out(*sch, t@, xs@) is Some,
    ensures
        written(array_out(*sch, t@, xs@), r, old(buf)@, final(buf)@),
    decreases xs@, 1nat, 0nat,
{
    mp_write_array_len(buf, xs.len() as u32);
    let ghost h = array_header(xs@.len());
    let r = write_items(sch, buf, t, xs);
    proof {
        if let Some(Ok(b)) = items_out(*sch, t@, xs@) {
            assert(buf@ =~= old(buf)@ + (h + b));
        }
    }
    r
}

fn write_items(sch: &SchemaModel, buf: &mut Vec<u8>, t: &str, xs: &Vec<ValueModel>) -> (r: Result<(), BrdbSchemaError>)
    requires
        items_out(*sch, t@, xs@) is Some,
    ensures
        written(items_out(*sch, t@, xs@), r, old(buf)@, final(buf)@),
    decreases xs@, 0nat, 0nat,
{
    let ghost base = buf@;
    let ghost total = items_out(*sch, t@, xs@);
    let ghost mut w: Seq<u8> = seq![];
    let mut i: usize = 0;
    assert(xs@.skip(0) =~= xs@);
    proof {
        lemma_then_empty_left(total);
    }
    while i < xs.len()
        invariant
            0 <= i <= xs@.len(),
            buf@ == base + w,
            total == items_out(*sch, t@, xs@),
            total == then(ok(w), items_out(*sch, t@, xs@.skip(i as int))),
            total is Some,
        decreases xs@.len() - i,
    {
        let ghost rest = xs@.skip(i as int);
        assert(rest.drop_first() =~= xs@.skip(i + 1));
        assert(rest[0] == xs@[i as int]);
        let r = write_brdb(sch, buf, t, &xs[i]);
        if r.is_err() {
            return r;
        }
        proof {
            let x = value_out(*sch, t@, xs@[i as int])->Some_0->Ok_0;
            lemma_then_ok(w, x, items_out(*sch, t@, xs@.skip(i + 1)));
            w = w + x;
            assert(buf@ =~= base + w);
        }
        i = i + 1;
    }
    proof {
        assert(xs@.skip(i as int) =~= Seq::<ValueModel>::empty());
        lemma_then_empty(w);
    }
    Ok(())
}

proof fn lemma_then_assoc(x: Seq<u8>, b: WOut, c: WOut)
    ensures
        then(then(ok(x), b), c) == then(ok(x), then(b, c)),
{
    if let Some(Ok(y)) = b {
        if let Some(Ok(z)) = c {
            assert(x + y + z =~= x + (y + z));
        }
    }
}

#[verifier::rlimit(60)]
fn write_pairs(sch: &SchemaModel, buf: &mut Vec<u8>, kt: &str, vt: &str, ps: &Vec<(ValueModel, ValueModel)>) -> (r: Result<(), BrdbSchemaError>)
    requires
        pairs_out(*sch, kt@, vt@, ps@) is Some,
    ensures
        written(pairs_out(*sch, kt@, vt@, ps@), r, old(buf)@, final(buf)@),
    decreases ps@, 0nat, 0nat,
{
    let ghost base = buf@;
    let ghost total = pairs_out(*sch, kt@, vt@, ps@);
    let ghost mut w: Seq<u8> = seq![];
    let mut i: usize = 0;
    assert(ps@.skip(0) =~= ps@);
    proof {
        lemma_then_empty_left(total);
    }
    while i < ps.len()
        invariant
            0 <= i <= ps@.len(),
            buf@ == base + w,
            total == pairs_out(*sch, kt@, vt@, ps@),
            total == then(ok(w), pairs_out(*sch, kt@, vt@, ps@.skip(i as int))),
            total is Some,
        decreases ps@.len() - i,
    {
        let ghost rest = ps@.skip(i as int);
        assert(rest.drop_first() =~= ps@.skip(i + 1));
        assert(rest[0] == ps@[i as int]);
        let ghost ko = value_out(*sch, kt@, ps@[i as int].0);
        let ghost vo = value_out(*sch, vt@, ps@[i as int].1);
        let ghost tail = pairs_out(*sch, kt@, vt@, ps@.skip(i + 1));
        let r = write_brdb(sch, buf, kt, &ps[i].0);
        if r.is_err() {
            return r;
        }
        proof {
            let x = ko->Some_0->Ok_0;
            assert(pairs_out(*sch, kt@, vt@, rest) == then(then(ko, vo), tail));
            lemma_then_assoc(x, vo, tail);
            lemma_then_ok(w, x, then(vo, tail));
            w = w + x;
            assert(buf@ =~= base + w);
        }
        let r = write_brdb(sch, buf, vt, &ps[i].1);
        if r.is_err() {
            return r;
        }
        proof {
            let y = vo->Some_0->Ok_0;
            lemma_then_ok(w, y, tail);
            w = w + y;
            assert(buf@ =~= base + w);
        }
        i = i + 1;
    }
    proof {
        assert(ps@.skip(i as int) =~= Seq::<(ValueModel, ValueModel)>::empty());
        lemma_then_empty(w);
    }
    Ok(())
}

/// Appends the zero value of `ty` (see [`zero_out`]): what a struct
/// property that a value lacks is written as. The types are required not
/// to contain themselves on the way.
pub fn write_brdb_zero(sch: &SchemaModel, buf: &mut Vec<u8>, ty: &str) -> (r: Result<(), BrdbSchemaError>)
    requires
        zero_out(*sch, ty@, type_depth(*sch)) is Some,
    ensures
        written(zero_out(*sch, ty@, type_depth(*sch)), r, old(buf)@, final(buf)@),
{
    let d = depth_of(sch);
    write_zero(sch, buf, ty, d)
}

pub(crate) proof fn lemma_builtin_names()
    ensures
        "bool"@ != "u8"@,
        "u8"@ != "u16"@ && "u8"@ != "u32"@ && "u8"@ != "u64"@,
        "u16"@ != "u32"@ && "u16"@ != "u64"@ && "u32"@ != "u64"@,
        "i8"@ != "u8"@ && "i8"@ != "u16"@ && "i8"@ != "u32"@ && "i8"@ != "u64"@ && "i8"@ != "bool"@,
        "i16"@ != "u16"@ && "i16"@ != "u32"@ && "i16"@ != "u64"@ && "i16"@ != "u8"@ && "i16"@ != "bool"@,
        "i32"@ != "u16"@ && "i32"@ != "u32"@ && "i32"@ != "u64"@ && "i32"@ != "u8"@ && "i32"@ != "bool"@,
        "i64"@ != "u16"@ && "i64"@ != "u32"@ && "i64"@ != "u64"@ && "i64"@ != "u8"@ && "i64"@ != "bool"@,
        "i8"@ != "i16"@ && "i8"@ != "i32"@ && "i8"@ != "i64"@,
        "i16"@ != "i32"@ && "i16"@ != "i64"@ && "i32"@ != "i64"@,
        "u16"@ != "bool"@ && "u32"@ != "bool"@ && "u64"@ != "bool"@,
{
    reveal_strlit("bool");
    reveal_strlit("u8");
    reveal_strlit("u16");
    reveal_strlit("u32");
    reveal_strlit("u64");
    reveal_strlit("i8");
    reveal_strlit("i16");
    reveal_strlit("i32");
    reveal_strlit("i64");
    assert("u16"@[1] != "u32"@[1]);
    assert("u16"@[1] != "u64"@[1]);
    assert("u32"@[1] != "u64"@[1]);
    assert("i16"@[1] != "i32"@[1]);
    assert("i16"@[1] != "i64"@[1]);
    assert("i32"@[1] != "i64"@[1]);
    assert("i16"@[0] != "u16"@[0]);
    assert("i32"@[0] != "u32"@[0]);
    assert("i64"@[0] != "u64"@[0]);
    assert("i8"@[0] != "u8"@[0]);
}

/// An enum value within its enum is written as its index, which reads back
/// as an unsigned integer.
pub proof fn lemma_enum_value_roundtrip(sch: SchemaModel, k: int, e: u64, rest: Seq<u8>)
    requires
        0 <= k < sch.enums@.len(),
        first_named(sch.variants@, sch.enums@[k].0@) is None,
        first_named(sch.structs@, sch.enums@[k].0@) is None,
        first_named(sch.enums@, sch.enums@[k].0@) == Some(k),
        !is_builtin(sch.enums@[k].0@),
        e < sch.enums@[k].1@.len(),
        sch.enums@[k].1@.len() <= i32::MAX,
    ensures
        value_out(sch, sch.enums@[k].0@, ValueModel::Enum(e)) matches Some(Ok(b)) && m_uint(b + rest)
            == Ok::<(u64, Seq<u8>), MetaErr>((e, rest)),
{
    assert((e as i32) as u64 == e);
    lemma_uint_read_uint(e, rest);
}

/// The type names that the writer knows without the schema.
pub open spec fn is_builtin(ty: Seq<char>) -> bool {
    ty == "bool"@ || ty == "u8"@ || ty == "u16"@ || ty == "u32"@ || ty == "u64"@ || ty == "i8"@ || ty
        == "i16"@ || ty == "i32"@ || ty == "i64"@ || ty == "f32"@ || ty == "f64"@ || ty == "str"@ || ty
        == "wire_graph_variant"@ || ty == "wire_graph_prim_math_variant"@ || ty == "bundle_path_ref"@
        || ty == "class"@ || ty == "object"@
}

} // verus!
