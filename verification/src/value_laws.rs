//! What reading gives back of what writing wrote, by the same schema: for
//! every built-in slot type, for named variants and enums, for the zero
//! values written where a struct value lacks a property, and for structs
//! whose properties hold such values, arrays of them or flat arrays of
//! numbers.
use vstd::prelude::*;
use vstd::utf8::{encode_utf8, encode_utf8_decode_utf8, encode_utf8_valid_utf8};

use crate::mp_int::{
    int_bytes, lemma_int_roundtrip, lemma_p256_values, lemma_u8_read_uint, lemma_uint_read_uint, lemma_uint_roundtrip,
    u8_bytes, uint_bytes,
};
use crate::msgpack::{array_header, be_bytes, be_nat, bin_header, lemma_be_bytes, mp_array_len, mp_bin_len};
use crate::le::{
    i16_le, i32_le, i64_le, i8_bits, i8_of_bits, lemma_i16_le, lemma_i32_le, lemma_i64_le, lemma_u16_le, lemma_u32_le,
    lemma_u64_le, u16_le, u32_le, u64_le,
};
use crate::schema_meta::{m_int, m_str, BrdbStructPropRaw, MetaErr};
use crate::msgpack::str_header;
use crate::mp_int::m_uint;
use crate::value::{
    first_named, position_of, wire_member, wire_payload, props_out, prop_out, items_out, array_out, named_wire,
    array_items, array_len, array_member, named_array, strs_out, WireArrayModel, ok,
    zero_props, flat_out, flat_items, flat_block, flat_size, type_depth, bool_bytes, f32_bytes, f64_bytes, is_builtin, legacy_wire, object_index, str_out, value_out, zero_out, F32Val, F64Val,
    SchemaModel, ValueModel, WireModel,
};
use crate::value_read::{
    f64_read_back, lemma_num64_of_int, lemma_scalar_write_read, lemma_str_header, m_num32, m_num64, object_of, p_type, r_ok, scalar_slot,
    scalar_view, read_fuel, p_flat, p_flat_items, interned, p_named, p_props, lemma_variant_read, p_prop, p_items, ReadView, StoredNum, WireRead,
};

verus! {

/// The built-in slot names differ from one another: each is told apart by
/// its length or by its first two characters.
pub(crate) proof fn lemma_slot_names()
    ensures
        "bool"@.len() == 4 && "bool"@[0] == 'b' && "bool"@[1] == 'o',
        "u8"@.len() == 2 && "u8"@[0] == 'u' && "u8"@[1] == '8',
        "u16"@.len() == 3 && "u16"@[0] == 'u' && "u16"@[1] == '1',
        "u32"@.len() == 3 && "u32"@[0] == 'u' && "u32"@[1] == '3',
        "u64"@.len() == 3 && "u64"@[0] == 'u' && "u64"@[1] == '6',
        "i8"@.len() == 2 && "i8"@[0] == 'i' && "i8"@[1] == '8',
        "i16"@.len() == 3 && "i16"@[0] == 'i' && "i16"@[1] == '1',
        "i32"@.len() == 3 && "i32"@[0] == 'i' && "i32"@[1] == '3',
        "i64"@.len() == 3 && "i64"@[0] == 'i' && "i64"@[1] == '6',
        "f32"@.len() == 3 && "f32"@[0] == 'f' && "f32"@[1] == '3',
        "f64"@.len() == 3 && "f64"@[0] == 'f' && "f64"@[1] == '6',
        "str"@.len() == 3 && "str"@[0] == 's' && "str"@[1] == 't',
        "wire_graph_variant"@.len() == 18,
        "wire_graph_prim_math_variant"@.len() == 28,
        "bundle_path_ref"@.len() == 15,
        "class"@.len() == 5,
        "object"@.len() == 6,
        "weak_object"@.len() == 11,
{
    reveal_strlit("bool");
    reveal_strlit("u8");
    reveal_strlit("u16");
    reveal_strlit("u32");
    reveal_strlit("u64");
    reveal_strlit("i8");
    reveal_strlit("i16");
    reveal_strlit("i32");
    reveal_strlit("i64");
    reveal_strlit("f32");
    reveal_strlit("f64");
    reveal_strlit("str");
    reveal_strlit("wire_graph_variant");
    reveal_strlit("wire_graph_prim_math_variant");
    reveal_strlit("bundle_path_ref");
    reveal_strlit("class");
    reveal_strlit("object");
    reveal_strlit("weak_object");
}

/// What reading gives back of a 32-bit float written into its slot: the
/// whole number it was written as, else its bits.
pub open spec fn f32_read_back(f: F32Val) -> StoredNum {
    match f.whole {
        Some(i) => StoredNum::Int(i),
        None => StoredNum::F32Bits(f.bits),
    }
}

/// A 32-bit float as a whole number fits what its slot reads: 16 bits, as
/// the writer's rule for whole numbers gives.
pub open spec fn f32_fits(f: F32Val) -> bool {
    f.whole matches Some(i) ==> -32768 <= i <= 65535
}

/// A 64-bit float as a whole number fits what its slot reads: 32 bits, as
/// the writer's rule for whole numbers gives.
pub open spec fn f64_fits(f: F64Val) -> bool {
    f.whole matches Some(i) ==> -2147483648 <= i <= 4294967295
}

/// A string fits its header: at most `u32::MAX` bytes of UTF-8.
pub open spec fn str_fits(s: Seq<char>) -> bool {
    encode_utf8(s).len() <= u32::MAX
}

/// What reading gives back of a value of the legacy wire graph variant.
pub open spec fn legacy_read(w: WireModel) -> Option<ReadView> {
    match w {
        WireModel::Number(f) => if f64_fits(f) {
            Some(ReadView::Wire(WireRead::Number(f64_read_back(f))))
        } else {
            None
        },
        WireModel::Int(i) => Some(ReadView::Wire(WireRead::Int(i))),
        WireModel::Bool(b) => Some(ReadView::Wire(WireRead::Bool(b))),
        WireModel::Object(o) => if o matches Some(i) ==> i <= i64::MAX {
            Some(ReadView::Wire(WireRead::Object(o)))
        } else {
            None
        },
        WireModel::Exec => Some(ReadView::Wire(WireRead::Exec)),
        _ => None,
    }
}

/// What reading gives back of `v` written into the built-in slot `ty`, in a
/// world with `assets` external asset references: `None` where `v` does not
/// go into that slot or does not come back from it (a float written as a
/// whole number too wide for its slot, a string too long for its header, an
/// asset reference past the world's assets, a wire value the slot has no
/// tag for).
pub open spec fn leaf_read(assets: nat, ty: Seq<char>, v: ValueModel) -> Option<ReadView> {
    if ty == "bool"@ || ty == "u8"@ || ty == "u16"@ || ty == "u32"@ || ty == "u64"@ || ty == "i8"@
        || ty == "i16"@ || ty == "i32"@ || ty == "i64"@ {
        if scalar_slot(v) == Some(ty) {
            Some(scalar_view(v))
        } else {
            None
        }
    } else if ty == "f32"@ {
        match v {
            ValueModel::F32(f) => if f32_fits(f) {
                Some(ReadView::F32(f32_read_back(f)))
            } else {
                None
            },
            _ => None,
        }
    } else if ty == "f64"@ {
        match v {
            ValueModel::F64(f) => if f64_fits(f) {
                Some(ReadView::F64(f64_read_back(f)))
            } else {
                None
            },
            _ => None,
        }
    } else if ty == "str"@ {
        match v {
            ValueModel::Str(s) => if str_fits(s@) {
                Some(ReadView::Str(s@))
            } else {
                None
            },
            _ => None,
        }
    } else if ty == "bundle_path_ref"@ {
        match v {
            ValueModel::Str(s) => if str_fits(s@) {
                Some(ReadView::Str(s@))
            } else {
                None
            },
            _ => Some(ReadView::Str(Seq::empty())),
        }
    } else if ty == "wire_graph_variant"@ {
        match v {
            ValueModel::Wire(w) => legacy_read(w),
            _ => None,
        }
    } else if ty == "wire_graph_prim_math_variant"@ {
        match v {
            ValueModel::Wire(WireModel::Number(f)) => if f64_fits(f) {
                Some(ReadView::Wire(WireRead::Number(f64_read_back(f))))
            } else {
                None
            },
            ValueModel::Wire(WireModel::Int(i)) => Some(ReadView::Wire(WireRead::Int(i))),
            _ => None,
        }
    } else if ty == "class"@ || ty == "object"@ {
        match v {
            ValueModel::Asset(None) => Some(ReadView::Asset(None)),
            ValueModel::Asset(Some(i)) => if i < assets && i <= i64::MAX {
                Some(ReadView::Asset(Some(i)))
            } else {
                None
            },
            _ => None,
        }
    } else {
        None
    }
}

proof fn lemma_num32_write_read(f: F32Val, rest: Seq<u8>)
    requires
        f32_fits(f),
    ensures
        m_num32(f32_bytes(f) + rest) == Ok::<(StoredNum, Seq<u8>), MetaErr>((f32_read_back(f), rest)),
{
    lemma_p256_values();
    match f.whole {
        Some(i) => {
            lemma_int_roundtrip(i, rest);
            let s = int_bytes(i) + rest;
            assert(s[0] != 0xce && s[0] != 0xcf && s[0] != 0xd2 && s[0] != 0xd3 && s[0] != 0xca && s[0]
                != 0xcb);
        },
        None => {
            lemma_be_bytes(f.bits as nat, 4);
            let s = f32_bytes(f) + rest;
            assert(s.skip(1).take(4) =~= be_bytes(f.bits as nat, 4));
            assert(s.skip(1).skip(4) =~= rest);
        },
    }
}

proof fn lemma_num64_write_read(f: F64Val, rest: Seq<u8>)
    requires
        f64_fits(f),
    ensures
        m_num64(f64_bytes(f) + rest) == Ok::<(StoredNum, Seq<u8>), MetaErr>((f64_read_back(f), rest)),
{
    lemma_p256_values();
    match f.whole {
        Some(i) => lemma_num64_of_int(i, rest),
        None => {
            lemma_be_bytes(f.bits as nat, 8);
            let s = f64_bytes(f) + rest;
            assert(s.skip(1).take(8) =~= be_bytes(f.bits as nat, 8));
            assert(s.skip(1).skip(8) =~= rest);
        },
    }
}

/// Characters written as a string read back as the same characters, and
/// the reader stops right after them.
pub proof fn lemma_chars_write_read(x: Seq<char>, rest: Seq<u8>)
    requires
        str_fits(x),
    ensures
        str_out(x) matches Some(Ok(b)) && m_str(b + rest) == Ok::<(Seq<char>, Seq<u8>), MetaErr>((x, rest)),
{
    let e = encode_utf8(x);
    let n = e.len();
    let h = str_header(n);
    let s = h + e + rest;
    assert(s =~= h + (e + rest));
    lemma_str_header(n, e + rest);
    let k = h.len() as int;
    assert(s.skip(k) =~= e + rest);
    assert((e + rest).take(n as int) =~= e);
    assert((e + rest).skip(n as int) =~= rest);
    encode_utf8_valid_utf8(x);
    encode_utf8_decode_utf8(x);
}

proof fn lemma_empty_chars()
    ensures
        str_fits(Seq::<char>::empty()),
        str_out(Seq::<char>::empty()) == Some(Ok::<Seq<u8>, crate::value::VErr>(str_header(0))),
{
    assert(encode_utf8(Seq::<char>::empty()) =~= Seq::<u8>::empty());
}

/// A wire value written as a legacy wire graph variant reads back as that
/// variant's value.
#[verifier::rlimit(80)]
#[verifier::spinoff_prover]
proof fn lemma_legacy_write_read(w: WireModel, rest: Seq<u8>, assets: nat, sch: SchemaModel, fuel: nat)
    requires
        legacy_read(w) is Some,
    ensures
        legacy_wire(w) matches Some(Ok(b)) && p_type(sch, assets, "wire_graph_variant"@, b + rest, fuel) == r_ok(
            legacy_read(w)->Some_0,
            rest,
        ),
{
    lemma_slot_names();
    let tag: u64 = match w {
        WireModel::Number(_) => 0,
        WireModel::Int(_) => 1,
        WireModel::Bool(_) => 2,
        WireModel::Object(_) => 3,
        _ => 4,
    };
    let pay = match w {
        WireModel::Number(f) => f64_bytes(f),
        WireModel::Int(i) => int_bytes(i),
        WireModel::Bool(b) => bool_bytes(b),
        WireModel::Object(o) => int_bytes(object_index(o)),
        _ => Seq::<u8>::empty(),
    };
    assert(legacy_wire(w) == Some(Ok::<Seq<u8>, crate::value::VErr>(uint_bytes(tag) + pay)));
    assert(uint_bytes(tag) + pay + rest =~= uint_bytes(tag) + (pay + rest));
    lemma_uint_read_uint(tag, pay + rest);
    match w {
        WireModel::Number(f) => lemma_num64_write_read(f, rest),
        WireModel::Int(i) => lemma_int_roundtrip(i, rest),
        WireModel::Bool(b) => {
            assert((bool_bytes(b) + rest).skip(1) =~= rest);
        },
        WireModel::Object(o) => {
            lemma_int_roundtrip(object_index(o), rest);
            if let Some(i) = o {
                assert(object_of(i as i64) == Some(i));
            }
        },
        _ => {
            assert(Seq::<u8>::empty() + rest =~= rest);
        },
    }
}

/// A value written into a built-in slot reads back from that slot as
/// [`leaf_read`] says, and the reader stops right after it: booleans and
/// integers as themselves, floats as the whole number or the bits they were
/// written as, strings as their characters, wire values of the legacy
/// variants as their tag's value, asset references as themselves.
#[verifier::rlimit(80)]
#[verifier::spinoff_prover]
pub proof fn lemma_leaf_write_read(sch: SchemaModel, assets: nat, ty: Seq<char>, v: ValueModel, rest: Seq<u8>, fuel: nat)
    requires
        leaf_read(assets, ty, v) is Some,
    ensures
        value_out(sch, ty, v) matches Some(Ok(b)) && p_type(sch, assets, ty, b + rest, fuel) == r_ok(
            leaf_read(assets, ty, v)->Some_0,
            rest,
        ),
{
    lemma_slot_names();
    if ty == "bool"@ || ty == "u8"@ || ty == "u16"@ || ty == "u32"@ || ty == "u64"@ || ty == "i8"@
        || ty == "i16"@ || ty == "i32"@ || ty == "i64"@ {
        lemma_scalar_write_read(sch, assets, v, rest, fuel);
    } else if ty == "f32"@ {
        let f = v->F32_0;
        assert(value_out(sch, ty, v) == Some(Ok::<Seq<u8>, crate::value::VErr>(f32_bytes(f))));
        lemma_num32_write_read(f, rest);
    } else if ty == "f64"@ {
        let f = v->F64_0;
        assert(value_out(sch, ty, v) == Some(Ok::<Seq<u8>, crate::value::VErr>(f64_bytes(f))));
        lemma_num64_write_read(f, rest);
    } else if ty == "str"@ || ty == "bundle_path_ref"@ {
        match v {
            ValueModel::Str(x) => {
                assert(value_out(sch, ty, v) == str_out(x@));
                lemma_chars_write_read(x@, rest);
            },
            _ => {
                lemma_empty_chars();
                assert(value_out(sch, ty, v) == Some(Ok::<Seq<u8>, crate::value::VErr>(str_header(0))));
                lemma_chars_write_read(Seq::<char>::empty(), rest);
            },
        }
    } else if ty == "wire_graph_variant"@ {
        let w = v->Wire_0;
        assert(value_out(sch, ty, v) == legacy_wire(w));
        lemma_legacy_write_read(w, rest, assets, sch, fuel);
    } else if ty == "wire_graph_prim_math_variant"@ {
        match v {
            ValueModel::Wire(WireModel::Number(f)) => {
                let pay = f64_bytes(f);
                assert(uint_bytes(0) + pay + rest =~= uint_bytes(0) + (pay + rest));
                lemma_uint_read_uint(0, pay + rest);
                lemma_num64_write_read(f, rest);
            },
            ValueModel::Wire(WireModel::Int(i)) => {
                let pay = int_bytes(i);
                assert(uint_bytes(1) + pay + rest =~= uint_bytes(1) + (pay + rest));
                lemma_uint_read_uint(1, pay + rest);
                lemma_int_roundtrip(i, rest);
            },
            _ => {},
        }
    } else if ty == "class"@ || ty == "object"@ {
        match v {
            ValueModel::Asset(Some(i)) => {
                lemma_uint_roundtrip(i as u64, rest);
                assert((i as u64) as i64 == i as i64);
            },
            ValueModel::Asset(None) => {
                lemma_int_roundtrip(-1i64, rest);
            },
            _ => {},
        }
    }
}

/// A type name of the schema that is read by the schema's own types, not
/// as a built-in slot.
pub open spec fn named_ok(ty: Seq<char>) -> bool {
    !is_builtin(ty) && ty != "weak_object"@
}

/// What reading gives back of the zero value written for `ty` where a
/// struct value lacks a property of that type: for a built-in slot its
/// zero, empty string or null reference; for an enum of the schema with a
/// value, its first value. `None` for other types.
pub open spec fn zero_read(sch: SchemaModel, ty: Seq<char>) -> Option<ReadView> {
    if ty == "bool"@ {
        Some(ReadView::Bool(false))
    } else if ty == "u8"@ {
        Some(ReadView::U8(0))
    } else if ty == "u16"@ {
        Some(ReadView::U16(0))
    } else if ty == "u32"@ {
        Some(ReadView::U32(0))
    } else if ty == "u64"@ {
        Some(ReadView::U64(0))
    } else if ty == "i8"@ {
        Some(ReadView::I8(0))
    } else if ty == "i16"@ {
        Some(ReadView::I16(0))
    } else if ty == "i32"@ {
        Some(ReadView::I32(0))
    } else if ty == "i64"@ {
        Some(ReadView::I64(0))
    } else if ty == "f32"@ {
        Some(ReadView::F32(StoredNum::Int(0)))
    } else if ty == "f64"@ {
        Some(ReadView::F64(StoredNum::Int(0)))
    } else if ty == "str"@ || ty == "bundle_path_ref"@ {
        Some(ReadView::Str(Seq::empty()))
    } else if ty == "wire_graph_variant"@ || ty == "wire_graph_prim_math_variant"@ {
        Some(ReadView::Wire(WireRead::Number(StoredNum::Int(0))))
    } else if ty == "class"@ || ty == "object"@ {
        Some(ReadView::Asset(None))
    } else if named_ok(ty) && first_named(sch.variants@, ty) is None && first_named(sch.structs@, ty) is None {
        match first_named(sch.enums@, ty) {
            Some(k) => if 0 <= k < sch.enums@.len() && sch.enums@[k].1@.len() > 0 {
                Some(ReadView::Enum(0))
            } else {
                None
            },
            None => None,
        }
    } else {
        None
    }
}

proof fn lemma_enum_read(sch: SchemaModel, assets: nat, ty: Seq<char>, k: int, e: u64, rest: Seq<u8>, fuel: nat)
    requires
        named_ok(ty),
        first_named(sch.variants@, ty) is None,
        first_named(sch.structs@, ty) is None,
        first_named(sch.enums@, ty) == Some(k),
        0 <= k < sch.enums@.len(),
        e < sch.enums@[k].1@.len(),
    ensures
        p_type(sch, assets, ty, uint_bytes(e) + rest, fuel) == r_ok(ReadView::Enum(e), rest),
{
    lemma_slot_names();
    crate::value::lemma_first_named(sch.enums@, ty);
    assert(interned(sch, ty)) by {
        assert(sch.enums@[k].0@ == ty);
    }
    lemma_uint_read_uint(e, rest);
    assert(p_type(sch, assets, ty, uint_bytes(e) + rest, fuel) == p_named(sch, assets, ty, uint_bytes(e) + rest, fuel));
}

/// The zero value written for a type that lacks a value reads back as
/// [`zero_read`] says, and the reader stops right after it.
#[verifier::rlimit(80)]
#[verifier::spinoff_prover]
pub proof fn lemma_zero_write_read(sch: SchemaModel, assets: nat, ty: Seq<char>, rest: Seq<u8>, wfuel: nat, fuel: nat)
    requires
        zero_read(sch, ty) is Some,
        wfuel > 0,
    ensures
        zero_out(sch, ty, wfuel) matches Some(Ok(b)) && p_type(sch, assets, ty, b + rest, fuel) == r_ok(
            zero_read(sch, ty)->Some_0,
            rest,
        ),
{
    lemma_slot_names();
    lemma_p256_values();
    if ty == "bool"@ {
        assert((bool_bytes(false) + rest).skip(1) =~= rest);
    } else if ty == "u8"@ {
        lemma_u8_read_uint(0, rest);
    } else if ty == "u16"@ || ty == "u32"@ || ty == "u64"@ {
        lemma_uint_read_uint(0, rest);
    } else if ty == "i8"@ || ty == "i16"@ || ty == "i32"@ || ty == "i64"@ {
        lemma_int_roundtrip(0, rest);
    } else if ty == "f32"@ {
        lemma_num32_write_read(F32Val { bits: 0, whole: Some(0) }, rest);
    } else if ty == "f64"@ {
        lemma_num64_write_read(F64Val { bits: 0, whole: Some(0) }, rest);
    } else if ty == "str"@ || ty == "bundle_path_ref"@ {
        lemma_empty_chars();
        lemma_chars_write_read(Seq::<char>::empty(), rest);
    } else if ty == "wire_graph_variant"@ || ty == "wire_graph_prim_math_variant"@ {
        assert(uint_bytes(0) + int_bytes(0) + rest =~= uint_bytes(0) + (int_bytes(0) + rest));
        lemma_uint_read_uint(0, int_bytes(0) + rest);
        lemma_num64_write_read(F64Val { bits: 0, whole: Some(0) }, rest);
    } else if ty == "class"@ || ty == "object"@ {
        lemma_int_roundtrip(-1i64, rest);
    } else {
        let k = first_named(sch.enums@, ty)->Some_0;
        assert(zero_out(sch, ty, wfuel) == Some(Ok::<Seq<u8>, crate::value::VErr>(uint_bytes(0))));
        lemma_enum_read(sch, assets, ty, k, 0, rest, fuel);
    }
}

/// What reading (with `rfuel`) gives back of the zero value written for
/// `ty` (with `wfuel`): for a built-in slot or an enum as [`zero_read`]
/// says; for a variant with members, the zero value of its first member;
/// for a struct, the zero value of each property in order, an empty array
/// for an array or a flat array of numbers. `None` where that does not come
/// back (a map property, a variant with no member, not enough fuel).
pub open spec fn zero_value_read(sch: SchemaModel, ty: Seq<char>, wfuel: nat, rfuel: nat) -> Option<ReadView>
    decreases wfuel, 0nat,
{
    if is_builtin(ty) {
        zero_read(sch, ty)
    } else if wfuel == 0 || !named_ok(ty) {
        None
    } else {
        match first_named(sch.variants@, ty) {
            Some(k) => if 0 <= k < sch.variants@.len() && sch.variants@[k].1@.len() > 0 && rfuel > 0 {
                zero_value_read(sch, sch.variants@[k].1@[0]@, (wfuel - 1) as nat, (rfuel - 1) as nat)
            } else {
                None
            },
            None => match first_named(sch.structs@, ty) {
                Some(k) => if 0 <= k < sch.structs@.len() {
                    match zero_props_read(sch, sch.structs@[k].1@, (wfuel - 1) as nat, rfuel) {
                        Some(fs) => Some(ReadView::Struct(ty, fs)),
                        None => None,
                    }
                } else {
                    None
                },
                None => zero_read(sch, ty),
            },
        }
    }
}

/// The zero values of the properties `ps`, read back in order.
pub open spec fn zero_props_read(sch: SchemaModel, ps: Seq<(String, BrdbStructPropRaw)>, wfuel: nat, rfuel: nat) -> Option<
    Seq<(Seq<char>, ReadView)>,
>
    decreases wfuel, ps.len(),
{
    if ps.len() == 0 {
        Some(seq![])
    } else {
        let x = if rfuel == 0 {
            None
        } else {
            match ps[0].1 {
                BrdbStructPropRaw::Type(t) => zero_value_read(sch, t@, wfuel, (rfuel - 1) as nat),
                BrdbStructPropRaw::Array(_) => Some(ReadView::Array(Seq::empty())),
                BrdbStructPropRaw::FlatArray(t) => if flat_width(t@) > 0 {
                    Some(ReadView::FlatArray(Seq::empty()))
                } else {
                    None
                },
                _ => None,
            }
        };
        match x {
            Some(v) => match zero_props_read(sch, ps.drop_first(), wfuel, rfuel) {
                Some(vs) => Some(seq![(ps[0].0@, v)] + vs),
                None => None,
            },
            None => None,
        }
    }
}

/// The zero value written for `ty` reads back as [`zero_value_read`] says,
/// and the reader stops right after it.
#[verifier::rlimit(80)]
#[verifier::spinoff_prover]
pub proof fn lemma_zero_value_write_read(sch: SchemaModel, assets: nat, ty: Seq<char>, rest: Seq<u8>, wfuel: nat, rfuel: nat)
    requires
        zero_value_read(sch, ty, wfuel, rfuel) is Some,
    ensures
        zero_out(sch, ty, wfuel) matches Some(Ok(b)) && p_type(sch, assets, ty, b + rest, rfuel) == r_ok(
            zero_value_read(sch, ty, wfuel, rfuel)->Some_0,
            rest,
        ),
    decreases wfuel, 0nat,
{
    lemma_slot_names();
    if is_builtin(ty) {
        if ty == "bool"@ || ty == "u8"@ || ty == "u16"@ || ty == "u32"@ || ty == "u64"@ || ty == "i8"@
            || ty == "i16"@ || ty == "i32"@ || ty == "i64"@ || ty == "f32"@ || ty == "f64"@ || ty == "str"@
            || ty == "bundle_path_ref"@ || ty == "wire_graph_variant"@ || ty == "wire_graph_prim_math_variant"@
            || ty == "class"@ || ty == "object"@ {
            lemma_zero_write_read(sch, assets, ty, rest, 1, rfuel);
        }
    } else {
        match first_named(sch.variants@, ty) {
            Some(k) => {
                crate::value::lemma_first_named(sch.variants@, ty);
                assert(sch.variants@[k].0@ == ty);
                let m = sch.variants@[k].1@[0]@;
                let w1 = (wfuel - 1) as nat;
                let r1 = (rfuel - 1) as nat;
                lemma_zero_value_write_read(sch, assets, m, rest, w1, r1);
                let pay = zero_out(sch, m, w1)->Some_0->Ok_0;
                assert(zero_out(sch, ty, wfuel) == Some(Ok::<Seq<u8>, crate::value::VErr>(uint_bytes(0) + pay)));
                assert(uint_bytes(0) + pay + rest =~= uint_bytes(0) + (pay + rest));
                crate::value_read::lemma_variant_read(sch, assets, k, 0, pay + rest, rfuel);
            },
            None => match first_named(sch.structs@, ty) {
                Some(k) => {
                    crate::value::lemma_first_named(sch.structs@, ty);
                    let ps = sch.structs@[k].1@;
                    lemma_zero_props_write_read(sch, assets, ps, rest, (wfuel - 1) as nat, rfuel);
                    assert(interned(sch, ty)) by {
                        assert(sch.structs@[k].0@ == ty);
                    }
                    let b = zero_props(sch, ps, (wfuel - 1) as nat)->Some_0->Ok_0;
                    assert(zero_out(sch, ty, wfuel) == Some(Ok::<Seq<u8>, crate::value::VErr>(b)));
                    assert(p_type(sch, assets, ty, b + rest, rfuel) == p_named(sch, assets, ty, b + rest, rfuel));
                },
                None => {
                    lemma_zero_write_read(sch, assets, ty, rest, wfuel, rfuel);
                },
            },
        }
    }
}

/// The zero values of the properties `ps` read back in order (see
/// [`zero_props_read`]).
#[verifier::rlimit(80)]
#[verifier::spinoff_prover]
proof fn lemma_zero_props_write_read(
    sch: SchemaModel,
    assets: nat,
    ps: Seq<(String, BrdbStructPropRaw)>,
    rest: Seq<u8>,
    wfuel: nat,
    rfuel: nat,
)
    requires
        zero_props_read(sch, ps, wfuel, rfuel) is Some,
    ensures
        zero_props(sch, ps, wfuel) matches Some(Ok(b)) && p_props(sch, assets, ps, b + rest, rfuel) == Some(
            Ok::<(Seq<(Seq<char>, ReadView)>, Seq<u8>), MetaErr>((zero_props_read(sch, ps, wfuel, rfuel)->Some_0, rest)),
        ),
    decreases wfuel, ps.len(),
{
    if ps.len() > 0 {
        let tail = ps.drop_first();
        lemma_zero_props_write_read(sch, assets, tail, rest, wfuel, rfuel);
        let bt = zero_props(sch, tail, wfuel)->Some_0->Ok_0;
        let r1 = (rfuel - 1) as nat;
        match ps[0].1 {
            BrdbStructPropRaw::Type(t) => {
                lemma_zero_value_write_read(sch, assets, t@, bt + rest, wfuel, r1);
                let b0 = zero_out(sch, t@, wfuel)->Some_0->Ok_0;
                assert(zero_props(sch, ps, wfuel) == Some(Ok::<Seq<u8>, crate::value::VErr>(b0 + bt)));
                assert(b0 + bt + rest =~= b0 + (bt + rest));
                assert(p_prop(sch, assets, ps[0].1, b0 + (bt + rest), rfuel) == r_ok(
                    zero_value_read(sch, t@, wfuel, r1)->Some_0,
                    bt + rest,
                ));
            },
            BrdbStructPropRaw::Array(t) => {
                lemma_empty_array_prop_read(sch, assets, t, bt + rest, rfuel);
                assert(zero_props(sch, ps, wfuel) == Some(Ok::<Seq<u8>, crate::value::VErr>(array_header(0) + bt)));
                assert(array_header(0) + bt + rest =~= array_header(0) + (bt + rest));
            },
            BrdbStructPropRaw::FlatArray(t) => {
                lemma_flat_prop_empty(sch, assets, t, bt + rest, rfuel);
                assert(zero_props(sch, ps, wfuel) == Some(Ok::<Seq<u8>, crate::value::VErr>(bin_header(0) + bt)));
                assert(bin_header(0) + bt + rest =~= bin_header(0) + (bt + rest));
            },
            _ => {},
        }
    }
}

/// What reading gives back of a wire value written into a named variant
/// that has its member: the member's value, where the member is a built-in
/// slot (a number, an integer, a boolean, a string or an asset reference).
pub open spec fn wire_read(assets: nat, w: WireModel) -> Option<ReadView> {
    match w {
        WireModel::Number(f) => if f64_fits(f) {
            Some(ReadView::F64(f64_read_back(f)))
        } else {
            None
        },
        WireModel::Int(i) => Some(ReadView::I64(i)),
        WireModel::Bool(b) => Some(ReadView::Bool(b)),
        WireModel::Str(x) => if str_fits(x@) {
            Some(ReadView::Str(x@))
        } else {
            None
        },
        WireModel::Object(None) => Some(ReadView::Asset(None)),
        WireModel::Object(Some(i)) => if i < assets && i <= i64::MAX {
            Some(ReadView::Asset(Some(i)))
        } else {
            None
        },
        _ => None,
    }
}

/// The element slot type and the values of an array of a wire graph array
/// variant whose elements are built-in slots: numbers, integers, booleans
/// or strings.
pub open spec fn array_values(a: WireArrayModel) -> Option<(Seq<char>, Seq<ValueModel>)> {
    match a {
        WireArrayModel::DoubleArray(v) => Some(("f64"@, v@.map_values(|f: F64Val| ValueModel::F64(f)))),
        WireArrayModel::Int64Array(v) => Some(("i64"@, v@.map_values(|i: i64| ValueModel::I64(i)))),
        WireArrayModel::BoolArray(v) => Some(("bool"@, v@.map_values(|b: bool| ValueModel::Bool(b)))),
        WireArrayModel::StringArray(v) => Some(("str"@, v@.map_values(|x: String| ValueModel::Str(x)))),
        _ => None,
    }
}

/// Values of a built-in slot type `e`, each read back (see [`leaf_read`]).
pub open spec fn leaf_items(assets: nat, e: Seq<char>, xs: Seq<ValueModel>) -> Option<Seq<ReadView>>
    decreases xs.len(),
{
    if xs.len() == 0 {
        Some(seq![])
    } else {
        match leaf_read(assets, e, xs[0]) {
            Some(x) => match leaf_items(assets, e, xs.drop_first()) {
                Some(r) => Some(seq![x] + r),
                None => None,
            },
            None => None,
        }
    }
}

/// The struct `m` of the schema holds one array of `e` named `Values`.
pub open spec fn values_struct(sch: SchemaModel, m: Seq<char>, e: Seq<char>) -> bool {
    &&& named_ok(m)
    &&& first_named(sch.variants@, m) is None
    &&& first_named(sch.structs@, m) matches Some(j) && 0 <= j < sch.structs@.len() && sch.structs@[j].1@.len()
        == 1 && sch.structs@[j].1@[0].0@ == "Values"@ && (sch.structs@[j].1@[0].1 matches BrdbStructPropRaw::Array(
        t,
    ) && t@ == e)
}

/// What reading gives back of an array written into a named variant: the
/// member struct with its `Values` array, where that struct is as the array
/// needs (see [`values_struct`]) and the elements are built-in slots.
pub open spec fn named_array_read(sch: SchemaModel, assets: nat, a: WireArrayModel) -> Option<ReadView> {
    match array_values(a) {
        Some((e, xs)) => if values_struct(sch, array_member(a), e) && xs.len() <= u32::MAX {
            match leaf_items(assets, e, xs) {
                Some(rs) => Some(ReadView::Struct(array_member(a), seq![("Values"@, ReadView::Array(rs))])),
                None => None,
            }
        } else {
            None
        },
        None => None,
    }
}

/// The floats that a wire value holds as a struct member of its variant,
/// with their slot type: a vector or rotator three `f64`, a quaternion four
/// `f64`, a linear color four `f32`, an exec signal none.
pub open spec fn wire_floats(w: WireModel) -> Option<(Seq<char>, Seq<ValueModel>)> {
    match w {
        WireModel::Vector(x, y, z) => Some(("f64"@, seq![x, y, z].map_values(|f: F64Val| ValueModel::F64(f)))),
        WireModel::Rotator(x, y, z) => Some(("f64"@, seq![x, y, z].map_values(|f: F64Val| ValueModel::F64(f)))),
        WireModel::Quat(x, y, z, q) => Some(("f64"@, seq![x, y, z, q].map_values(|f: F64Val| ValueModel::F64(f)))),
        WireModel::LinearColor(r, g, b, a) => Some(
            ("f32"@, seq![r, g, b, a].map_values(|f: F32Val| ValueModel::F32(f))),
        ),
        WireModel::Exec => Some(("f64"@, Seq::<F64Val>::empty().map_values(|f: F64Val| ValueModel::F64(f)))),
        _ => None,
    }
}

/// The struct `m` of the schema has `n` properties, each a slot of type
/// `e`.
pub open spec fn slots_struct(sch: SchemaModel, m: Seq<char>, e: Seq<char>, n: nat) -> bool {
    &&& named_ok(m)
    &&& first_named(sch.variants@, m) is None
    &&& first_named(sch.structs@, m) matches Some(j) && 0 <= j < sch.structs@.len() && sch.structs@[j].1@.len()
        == n && forall|i: int|
        0 <= i < n ==> ((#[trigger] sch.structs@[j].1@[i]).1 matches BrdbStructPropRaw::Type(t) && t@ == e)
}

/// The names of the properties `ps` with the values `rs`.
pub open spec fn named_values(ps: Seq<(String, BrdbStructPropRaw)>, rs: Seq<ReadView>) -> Seq<(Seq<char>, ReadView)> {
    Seq::new(ps.len(), |i: int| (ps[i].0@, rs[i]))
}

/// What reading gives back of floats written as the member struct `m`: the
/// struct with its properties, each holding its float read back.
pub open spec fn slots_member_read(sch: SchemaModel, assets: nat, m: Seq<char>, e: Seq<char>, xs: Seq<ValueModel>) -> Option<
    ReadView,
> {
    if slots_struct(sch, m, e, xs.len()) {
        match leaf_items(assets, e, xs) {
            Some(rs) => Some(
                ReadView::Struct(m, named_values(sch.structs@[first_named(sch.structs@, m)->Some_0].1@, rs)),
            ),
            None => None,
        }
    } else {
        None
    }
}

/// The byte width of a number laid out flat; 0 for other types.
pub open spec fn flat_width(ty: Seq<char>) -> nat {
    if ty == "u8"@ || ty == "i8"@ {
        1
    } else if ty == "u16"@ || ty == "i16"@ {
        2
    } else if ty == "u32"@ || ty == "i32"@ || ty == "f32"@ {
        4
    } else if ty == "u64"@ || ty == "i64"@ || ty == "f64"@ {
        8
    } else {
        0
    }
}

/// What reading gives back of a number laid out flat as `ty`: the same
/// number, a float as its bits.
pub open spec fn flat_num_read(ty: Seq<char>, v: ValueModel) -> Option<ReadView> {
    match v {
        ValueModel::U8(x) => if ty == "u8"@ { Some(ReadView::U8(x)) } else { None },
        ValueModel::U16(x) => if ty == "u16"@ { Some(ReadView::U16(x)) } else { None },
        ValueModel::U32(x) => if ty == "u32"@ { Some(ReadView::U32(x)) } else { None },
        ValueModel::U64(x) => if ty == "u64"@ { Some(ReadView::U64(x)) } else { None },
        ValueModel::I8(x) => if ty == "i8"@ { Some(ReadView::I8(x)) } else { None },
        ValueModel::I16(x) => if ty == "i16"@ { Some(ReadView::I16(x)) } else { None },
        ValueModel::I32(x) => if ty == "i32"@ { Some(ReadView::I32(x)) } else { None },
        ValueModel::I64(x) => if ty == "i64"@ { Some(ReadView::I64(x)) } else { None },
        ValueModel::F32(f) => if ty == "f32"@ { Some(ReadView::F32(StoredNum::F32Bits(f.bits))) } else { None },
        ValueModel::F64(f) => if ty == "f64"@ { Some(ReadView::F64(StoredNum::F64Bits(f.bits))) } else { None },
        _ => None,
    }
}

/// Numbers laid out flat as `ty`, each read back.
pub open spec fn flat_nums_read(ty: Seq<char>, xs: Seq<ValueModel>) -> Option<Seq<ReadView>>
    decreases xs.len(),
{
    if xs.len() == 0 {
        Some(seq![])
    } else {
        match flat_num_read(ty, xs[0]) {
            Some(x) => match flat_nums_read(ty, xs.drop_first()) {
                Some(r) => Some(seq![x] + r),
                None => None,
            },
            None => None,
        }
    }
}

/// What reading `ty` with `fuel` gives back of `v` written as `ty`, by the
/// same schema, where it gives it back whole:
/// - a built-in slot as [`leaf_read`] says;
/// - a named variant's wire value as [`wire_read`] says, or, for a member
///   that is a struct of floats, as [`slots_member_read`] says;
/// - a named variant's array as [`named_array_read`] says;
/// - a struct as its properties in the schema's order (see [`prop_read`]);
/// - an enum value below the number of the enum's values as itself.
///
/// `None` for the rest: what does not go into the type, or does not come
/// back as it went (a map property, which is written with a map header and
/// read with an integer one; a flat array of structs; an array of vectors,
/// rotators, quaternions, colors or asset references in a named variant; a
/// value too deep for `fuel`).
pub open spec fn value_read_of(sch: SchemaModel, assets: nat, ty: Seq<char>, v: ValueModel, fuel: nat) -> Option<ReadView>
    decreases v, 2nat, 0nat,
{
    if is_builtin(ty) {
        leaf_read(assets, ty, v)
    } else if ty == "weak_object"@ {
        None
    } else {
        match first_named(sch.variants@, ty) {
            Some(k) => match v {
                ValueModel::Wire(w) => if fuel > 0 && 0 <= k < sch.variants@.len() && position_of(
                    sch.variants@[k].1@,
                    wire_member(w),
                ) is Some {
                    match wire_floats(w) {
                        Some((e, xs)) => if fuel > 1 {
                            slots_member_read(sch, assets, wire_member(w), e, xs)
                        } else {
                            None
                        },
                        None => wire_read(assets, w),
                    }
                } else {
                    None
                },
                ValueModel::WireArray(a) => if fuel > 1 && 0 <= k < sch.variants@.len() && position_of(
                    sch.variants@[k].1@,
                    array_member(a),
                ) is Some {
                    named_array_read(sch, assets, a)
                } else {
                    None
                },
                _ => None,
            },
            None => match first_named(sch.structs@, ty) {
                Some(k) => if 0 <= k < sch.structs@.len() {
                    match props_read(sch, assets, sch.structs@[k].1@, v, fuel) {
                        Some(fs) => Some(ReadView::Struct(ty, fs)),
                        None => None,
                    }
                } else {
                    None
                },
                None => match first_named(sch.enums@, ty) {
                    Some(k) => match v {
                        ValueModel::Enum(e) => if 0 <= k < sch.enums@.len() && e < sch.enums@[k].1@.len()
                            && sch.enums@[k].1@.len() <= i32::MAX {
                            Some(ReadView::Enum(e))
                        } else {
                            None
                        },
                        _ => None,
                    },
                    None => None,
                },
            },
        }
    }
}

/// The properties `ps` of a struct value `v`, read back in order.
pub open spec fn props_read(
    sch: SchemaModel,
    assets: nat,
    ps: Seq<(String, BrdbStructPropRaw)>,
    v: ValueModel,
    fuel: nat,
) -> Option<Seq<(Seq<char>, ReadView)>>
    decreases v, 1nat, ps.len(),
{
    if ps.len() == 0 {
        Some(seq![])
    } else {
        match prop_read(sch, assets, ps[0].0@, ps[0].1, v, fuel) {
            Some(x) => match props_read(sch, assets, ps.drop_first(), v, fuel) {
                Some(xs) => Some(seq![(ps[0].0@, x)] + xs),
                None => None,
            },
            None => None,
        }
    }
}

/// One property of a struct value, read back: the value of the field of
/// its name (see [`value_read_of`]), or the zero value where there is none
/// (see [`zero_value_read`]); an array property as the array of its items
/// read back, or as an empty array where the field is missing or holds no
/// array; a flat array of numbers likewise, as a flat array.
pub open spec fn prop_read(
    sch: SchemaModel,
    assets: nat,
    name: Seq<char>,
    p: BrdbStructPropRaw,
    v: ValueModel,
    fuel: nat,
) -> Option<ReadView>
    decreases v, 1nat, 0nat,
{
    if fuel == 0 {
        None
    } else {
        match v {
            ValueModel::Struct(fields) => {
                let f = first_named(fields@, name);
                match p {
                    BrdbStructPropRaw::Type(t) => match f {
                        Some(k) => if 0 <= k < fields@.len() {
                            value_read_of(sch, assets, t@, fields@[k].1, (fuel - 1) as nat)
                        } else {
                            None
                        },
                        None => zero_value_read(sch, t@, type_depth(sch), (fuel - 1) as nat),
                    },
                    BrdbStructPropRaw::Array(t) => match f {
                        Some(k) => if 0 <= k < fields@.len() {
                            match fields@[k].1 {
                                ValueModel::Array(xs) => if xs@.len() <= u32::MAX {
                                    match items_read(sch, assets, t@, xs@, (fuel - 1) as nat) {
                                        Some(rs) => Some(ReadView::Array(rs)),
                                        None => None,
                                    }
                                } else {
                                    None
                                },
                                ValueModel::FlatArray(xs) => if xs@.len() <= u32::MAX {
                                    match items_read(sch, assets, t@, xs@, (fuel - 1) as nat) {
                                        Some(rs) => Some(ReadView::Array(rs)),
                                        None => None,
                                    }
                                } else {
                                    None
                                },
                                _ => Some(ReadView::Array(Seq::empty())),
                            }
                        } else {
                            None
                        },
                        None => Some(ReadView::Array(Seq::empty())),
                    },
                    BrdbStructPropRaw::FlatArray(t) => if flat_width(t@) > 0 {
                        match f {
                            Some(k) => if 0 <= k < fields@.len() {
                                match fields@[k].1 {
                                    ValueModel::Array(xs) => if xs@.len() * flat_width(t@) <= u32::MAX {
                                        match flat_nums_read(t@, xs@) {
                                            Some(rs) => Some(ReadView::FlatArray(rs)),
                                            None => None,
                                        }
                                    } else {
                                        None
                                    },
                                    ValueModel::FlatArray(xs) => if xs@.len() * flat_width(t@) <= u32::MAX {
                                        match flat_nums_read(t@, xs@) {
                                            Some(rs) => Some(ReadView::FlatArray(rs)),
                                            None => None,
                                        }
                                    } else {
                                        None
                                    },
                                    _ => Some(ReadView::FlatArray(Seq::empty())),
                                }
                            } else {
                                None
                            },
                            None => Some(ReadView::FlatArray(Seq::empty())),
                        }
                    } else {
                        None
                    },
                    _ => None,
                }
            },
            _ => None,
        }
    }
}

/// The items of an array, each read back as type `t`.
pub open spec fn items_read(sch: SchemaModel, assets: nat, t: Seq<char>, xs: Seq<ValueModel>, fuel: nat) -> Option<
    Seq<ReadView>,
>
    decreases xs, 0nat, xs.len(),
{
    if xs.len() == 0 {
        Some(seq![])
    } else {
        match value_read_of(sch, assets, t, xs[0], fuel) {
            Some(x) => match items_read(sch, assets, t, xs.drop_first(), fuel) {
                Some(r) => Some(seq![x] + r),
                None => None,
            },
            None => None,
        }
    }
}

/// The header that an array of `n` items is written with gives back `n`.
proof fn lemma_array_header(n: nat, body: Seq<u8>)
    requires
        n <= u32::MAX,
    ensures
        mp_array_len(array_header(n) + body) == Some((n, array_header(n).len() as int)),
{
    lemma_p256_values();
    let s = array_header(n) + body;
    if n < 16 {
    } else if n < 65536 {
        lemma_be_bytes(n, 2);
        assert(s.subrange(1, 3) =~= be_bytes(n, 2));
    } else {
        lemma_be_bytes(n, 4);
        assert(s.subrange(1, 5) =~= be_bytes(n, 4));
    }
}

/// An empty array reads back as no items.
proof fn lemma_empty_array_read(sch: SchemaModel, assets: nat, t: Seq<char>, rest: Seq<u8>, fuel: nat)
    ensures
        mp_array_len(array_header(0) + rest) == Some((0nat, 1int)),
        p_items(sch, assets, t, 0, (array_header(0) + rest).skip(1), fuel) == Some(
            Ok::<(Seq<ReadView>, Seq<u8>), MetaErr>((Seq::<ReadView>::empty(), rest)),
        ),
{
    lemma_array_header(0, rest);
    assert((array_header(0) + rest).skip(1) =~= rest);
}

/// A wire value written into a named variant that has its member reads
/// back as [`wire_read`] says.
#[verifier::rlimit(80)]
#[verifier::spinoff_prover]
proof fn lemma_named_wire_rt(sch: SchemaModel, assets: nat, ty: Seq<char>, k: int, w: WireModel, rest: Seq<u8>, fuel: nat)
    requires
        named_ok(ty),
        first_named(sch.variants@, ty) == Some(k),
        0 <= k < sch.variants@.len(),
        position_of(sch.variants@[k].1@, wire_member(w)) is Some,
        wire_read(assets, w) is Some,
        fuel > 0,
    ensures
        named_wire(sch.variants@[k].1@, ty, w) matches Some(Ok(b)) && p_type(sch, assets, ty, b + rest, fuel)
            == r_ok(wire_read(assets, w)->Some_0, rest),
{
    lemma_slot_names();
    crate::value::lemma_first_named(sch.variants@, ty);
    let members = sch.variants@[k].1@;
    crate::value::lemma_position_of(members, wire_member(w));
    let t = position_of(members, wire_member(w))->Some_0;
    assert(sch.variants@[k].0@ == ty);
    let f1 = (fuel - 1) as nat;
    match w {
        WireModel::Number(f) => {
            lemma_leaf_write_read(sch, assets, "f64"@, ValueModel::F64(f), rest, f1);
        },
        WireModel::Int(i) => {
            lemma_leaf_write_read(sch, assets, "i64"@, ValueModel::I64(i), rest, f1);
        },
        WireModel::Bool(b) => {
            lemma_leaf_write_read(sch, assets, "bool"@, ValueModel::Bool(b), rest, f1);
        },
        WireModel::Str(x) => {
            lemma_leaf_write_read(sch, assets, "str"@, ValueModel::Str(x), rest, f1);
        },
        WireModel::Object(o) => {
            lemma_int_roundtrip(object_index(o), rest);
            reveal_strlit("weak_object");
        },
        _ => {},
    }
    let pay = wire_payload(w)->Some_0->Ok_0;
    assert(p_type(sch, assets, wire_member(w), pay + rest, f1) == r_ok(wire_read(assets, w)->Some_0, rest));
    assert(named_wire(members, ty, w) == Some(Ok::<Seq<u8>, crate::value::VErr>(uint_bytes(t as u64) + pay)));
    assert(uint_bytes(t as u64) + pay + rest =~= uint_bytes(t as u64) + (pay + rest));
    crate::value_read::lemma_variant_read(sch, assets, k, t, pay + rest, fuel);
}

/// Writing values one after another, each as the bytes `h` gives.
proof fn lemma_items_flat<A>(sch: SchemaModel, e: Seq<char>, v: Seq<A>, g: spec_fn(A) -> ValueModel, h: spec_fn(A) -> Seq<u8>)
    requires
        forall|x: A| #[trigger] value_out(sch, e, g(x)) == ok(h(x)),
    ensures
        items_out(sch, e, v.map_values(g)) == ok(v.map_values(h).flatten()),
    decreases v.len(),
{
    if v.len() == 0 {
        assert(v.map_values(g) =~= Seq::<ValueModel>::empty());
        assert(v.map_values(h) =~= Seq::<Seq<u8>>::empty());
    } else {
        lemma_items_flat(sch, e, v.drop_first(), g, h);
        let vg = v.map_values(g);
        let vh = v.map_values(h);
        assert(vg.drop_first() =~= v.drop_first().map_values(g));
        assert(vh.drop_first() =~= v.drop_first().map_values(h));
        assert(vg[0] == g(v[0]));
        assert(vh.first() == h(v[0]));
        assert(value_out(sch, e, g(v[0])) == ok(h(v[0])));
        assert(items_out(sch, e, vg.drop_first()) == ok(vh.drop_first().flatten()));
        assert(vh.flatten() == vh.first() + vh.drop_first().flatten());
    }
}

proof fn lemma_strs_items(sch: SchemaModel, v: Seq<String>)
    ensures
        items_out(sch, "str"@, v.map_values(|x: String| ValueModel::Str(x))) == strs_out(v),
    decreases v.len(),
{
    lemma_slot_names();
    let g = |x: String| ValueModel::Str(x);
    if v.len() == 0 {
        assert(v.map_values(g) =~= Seq::<ValueModel>::empty());
    } else {
        lemma_strs_items(sch, v.drop_first());
        assert(v.map_values(g).drop_first() =~= v.drop_first().map_values(g));
        assert(v.map_values(g)[0] == ValueModel::Str(v[0]));
        assert(value_out(sch, "str"@, ValueModel::Str(v[0])) == str_out(v[0]@));
    }
}

/// The elements of an array value are written as the values that
/// [`array_values`] gives, one after another.
proof fn lemma_array_items_values(sch: SchemaModel, a: WireArrayModel)
    requires
        array_values(a) is Some,
    ensures
        array_values(a) matches Some((e, xs)) && array_items(a) == items_out(sch, e, xs) && xs.len() == array_len(a),
{
    lemma_slot_names();
    match a {
        WireArrayModel::DoubleArray(v) => {
            let g = |f: F64Val| ValueModel::F64(f);
            let h = |f: F64Val| f64_bytes(f);
            assert forall|x: F64Val| #[trigger] value_out(sch, "f64"@, g(x)) == ok(h(x)) by {}
            lemma_items_flat(sch, "f64"@, v@, g, h);
        },
        WireArrayModel::Int64Array(v) => {
            let g = |i: i64| ValueModel::I64(i);
            let h = |i: i64| int_bytes(i);
            assert forall|x: i64| #[trigger] value_out(sch, "i64"@, g(x)) == ok(h(x)) by {}
            lemma_items_flat(sch, "i64"@, v@, g, h);
        },
        WireArrayModel::BoolArray(v) => {
            let g = |b: bool| ValueModel::Bool(b);
            let h = |b: bool| bool_bytes(b);
            assert forall|x: bool| #[trigger] value_out(sch, "bool"@, g(x)) == ok(h(x)) by {}
            lemma_items_flat(sch, "bool"@, v@, g, h);
        },
        WireArrayModel::StringArray(v) => {
            lemma_strs_items(sch, v@);
        },
        _ => {},
    }
}

/// Values of a built-in slot type written one after another read back one
/// by one (see [`leaf_items`]).
#[verifier::rlimit(80)]
#[verifier::spinoff_prover]
proof fn lemma_leaf_items_rt(sch: SchemaModel, assets: nat, e: Seq<char>, xs: Seq<ValueModel>, rest: Seq<u8>, fuel: nat)
    requires
        leaf_items(assets, e, xs) is Some,
    ensures
        items_out(sch, e, xs) matches Some(Ok(b)) && p_items(sch, assets, e, xs.len(), b + rest, fuel) == Some(
            Ok::<(Seq<ReadView>, Seq<u8>), MetaErr>((leaf_items(assets, e, xs)->Some_0, rest)),
        ),
    decreases xs.len(),
{
    if xs.len() > 0 {
        let tail = xs.drop_first();
        lemma_leaf_items_rt(sch, assets, e, tail, rest, fuel);
        let bt = items_out(sch, e, tail)->Some_0->Ok_0;
        lemma_leaf_write_read(sch, assets, e, xs[0], bt + rest, fuel);
        let b0 = value_out(sch, e, xs[0])->Some_0->Ok_0;
        assert(items_out(sch, e, xs) == Some(Ok::<Seq<u8>, crate::value::VErr>(b0 + bt)));
        assert(b0 + bt + rest =~= b0 + (bt + rest));
        assert(tail.len() == (xs.len() - 1) as nat);
    }
}

/// The member struct of an array, read with its `Values` array.
#[verifier::rlimit(80)]
#[verifier::spinoff_prover]
proof fn lemma_values_struct_read(sch: SchemaModel, assets: nat, a: WireArrayModel, rest: Seq<u8>, fuel: nat)
    requires
        named_array_read(sch, assets, a) is Some,
        fuel > 1,
    ensures
        array_len(a) <= u32::MAX,
        array_items(a) matches Some(Ok(bi)) && p_type(
            sch,
            assets,
            array_member(a),
            array_header(array_len(a)) + bi + rest,
            (fuel - 1) as nat,
        ) == r_ok(named_array_read(sch, assets, a)->Some_0, rest),
{
    lemma_slot_names();
    lemma_array_items_values(sch, a);
    let (e, xs) = array_values(a)->Some_0;
    let m = array_member(a);
    let j = first_named(sch.structs@, m)->Some_0;
    crate::value::lemma_first_named(sch.structs@, m);
    let ps = sch.structs@[j].1@;
    let t = ps[0].1->Array_0;
    let f1 = (fuel - 1) as nat;
    let f2 = (fuel - 2) as nat;
    lemma_leaf_items_rt(sch, assets, e, xs, rest, f2);
    let bi = items_out(sch, e, xs)->Some_0->Ok_0;
    let rs = leaf_items(assets, e, xs)->Some_0;
    lemma_array_header(xs.len(), bi + rest);
    let h = array_header(xs.len());
    let s = h + bi + rest;
    assert(s =~= h + (bi + rest));
    assert(s.skip(h.len() as int) =~= bi + rest);
    assert(p_prop(sch, assets, ps[0].1, s, f1) == r_ok(ReadView::Array(rs), rest));
    assert(ps.drop_first() =~= Seq::<(String, BrdbStructPropRaw)>::empty());
    assert(p_props(sch, assets, ps.drop_first(), rest, f1) == Some(
        Ok::<(Seq<(Seq<char>, ReadView)>, Seq<u8>), MetaErr>((Seq::<(Seq<char>, ReadView)>::empty(), rest)),
    ));
    assert(seq![(ps[0].0@, ReadView::Array(rs))] + Seq::<(Seq<char>, ReadView)>::empty() =~= seq![
        ("Values"@, ReadView::Array(rs)),
    ]);
    assert(interned(sch, m)) by {
        assert(sch.structs@[j].0@ == m);
    }
    assert(p_type(sch, assets, m, s, f1) == p_named(sch, assets, m, s, f1));
}

/// An array written into a named variant reads back as the member struct
/// with its `Values` array (see [`named_array_read`]).
#[verifier::rlimit(80)]
#[verifier::spinoff_prover]
proof fn lemma_named_array_rt(sch: SchemaModel, assets: nat, ty: Seq<char>, k: int, a: WireArrayModel, rest: Seq<u8>, fuel: nat)
    requires
        named_ok(ty),
        first_named(sch.variants@, ty) == Some(k),
        0 <= k < sch.variants@.len(),
        position_of(sch.variants@[k].1@, array_member(a)) is Some,
        named_array_read(sch, assets, a) is Some,
        fuel > 1,
    ensures
        named_array(sch.variants@[k].1@, ty, a) matches Some(Ok(b)) && p_type(sch, assets, ty, b + rest, fuel)
            == r_ok(named_array_read(sch, assets, a)->Some_0, rest),
{
    lemma_slot_names();
    crate::value::lemma_first_named(sch.variants@, ty);
    let members = sch.variants@[k].1@;
    crate::value::lemma_position_of(members, array_member(a));
    let t = position_of(members, array_member(a))->Some_0;
    assert(sch.variants@[k].0@ == ty);
    lemma_values_struct_read(sch, assets, a, rest, fuel);
    let bi = array_items(a)->Some_0->Ok_0;
    let h = array_header(array_len(a));
    let pay = h + bi;
    assert(named_array(members, ty, a) == Some(Ok::<Seq<u8>, crate::value::VErr>(uint_bytes(t as u64) + pay)));
    assert(uint_bytes(t as u64) + pay + rest =~= uint_bytes(t as u64) + (pay + rest));
    assert(pay + rest =~= h + bi + rest);
    crate::value_read::lemma_variant_read(sch, assets, k, t, pay + rest, fuel);
}

proof fn lemma_p_items_len(sch: SchemaModel, assets: nat, t: Seq<char>, n: nat, s: Seq<u8>, fuel: nat)
    ensures
        p_items(sch, assets, t, n, s, fuel) matches Some(Ok((rs, _))) ==> rs.len() == n,
    decreases n,
{
    if n > 0 {
        if let Some(Ok((_, r))) = p_type(sch, assets, t, s, fuel) {
            lemma_p_items_len(sch, assets, t, (n - 1) as nat, r, fuel);
        }
    }
}

/// Reading the properties `ps` of a struct, each a slot of type `e`, reads
/// as many values of `e`, named by the properties.
#[verifier::rlimit(80)]
#[verifier::spinoff_prover]
proof fn lemma_props_as_items(sch: SchemaModel, assets: nat, ps: Seq<(String, BrdbStructPropRaw)>, e: Seq<char>, s: Seq<u8>, fuel: nat)
    requires
        forall|i: int| 0 <= i < ps.len() ==> ((#[trigger] ps[i]).1 matches BrdbStructPropRaw::Type(t) && t@ == e),
        fuel > 0,
    ensures
        p_props(sch, assets, ps, s, fuel) == match p_items(sch, assets, e, ps.len(), s, (fuel - 1) as nat) {
            None => None,
            Some(Err(x)) => Some(Err(x)),
            Some(Ok((rs, r))) => Some(Ok::<(Seq<(Seq<char>, ReadView)>, Seq<u8>), MetaErr>((named_values(ps, rs), r))),
        },
    decreases ps.len(),
{
    if ps.len() == 0 {
        assert(named_values(ps, Seq::<ReadView>::empty()) =~= Seq::<(Seq<char>, ReadView)>::empty());
    } else {
        let pt = ps.drop_first();
        assert forall|i: int| 0 <= i < pt.len() implies ((#[trigger] pt[i]).1 matches BrdbStructPropRaw::Type(t) && t@ == e) by {
            assert(pt[i] == ps[i + 1]);
        }
        assert(ps[0].1 matches BrdbStructPropRaw::Type(t) && t@ == e);
        assert(pt.len() == (ps.len() - 1) as nat);
        assert(p_prop(sch, assets, ps[0].1, s, fuel) == p_type(sch, assets, e, s, (fuel - 1) as nat));
        assert(p_items(sch, assets, e, ps.len(), s, (fuel - 1) as nat) == match p_type(sch, assets, e, s, (fuel - 1) as nat) {
            None => None,
            Some(Err(x)) => Some(Err(x)),
            Some(Ok((v, r))) => match p_items(sch, assets, e, pt.len(), r, (fuel - 1) as nat) {
                None => None,
                Some(Err(x)) => Some(Err(x)),
                Some(Ok((vs, r2))) => Some(Ok::<(Seq<ReadView>, Seq<u8>), MetaErr>((seq![v] + vs, r2))),
            },
        });
        match p_type(sch, assets, e, s, (fuel - 1) as nat) {
            Some(Ok((x, r))) => {
                lemma_props_as_items(sch, assets, pt, e, r, fuel);
                lemma_p_items_len(sch, assets, e, pt.len(), r, (fuel - 1) as nat);
                match p_items(sch, assets, e, pt.len(), r, (fuel - 1) as nat) {
                    Some(Ok((rs, r2))) => {
                        assert(named_values(ps, seq![x] + rs) =~= seq![(ps[0].0@, x)] + named_values(pt, rs));
                    },
                    _ => {},
                }
            },
            _ => {},
        }
    }
}

/// Float slots written one after another, read back as the properties
/// `ps` of a struct, each a slot of type `e`.
proof fn lemma_slots_props(
    sch: SchemaModel,
    assets: nat,
    ps: Seq<(String, BrdbStructPropRaw)>,
    e: Seq<char>,
    xs: Seq<ValueModel>,
    rest: Seq<u8>,
    fuel: nat,
)
    requires
        ps.len() == xs.len(),
        forall|i: int| 0 <= i < ps.len() ==> ((#[trigger] ps[i]).1 matches BrdbStructPropRaw::Type(t) && t@ == e),
        leaf_items(assets, e, xs) is Some,
        fuel > 0,
    ensures
        items_out(sch, e, xs) matches Some(Ok(b)) && p_props(sch, assets, ps, b + rest, fuel) == Some(
            Ok::<(Seq<(Seq<char>, ReadView)>, Seq<u8>), MetaErr>(
                (named_values(ps, leaf_items(assets, e, xs)->Some_0), rest),
            ),
        ),
{
    lemma_leaf_items_rt(sch, assets, e, xs, rest, (fuel - 1) as nat);
    let b = items_out(sch, e, xs)->Some_0->Ok_0;
    lemma_props_as_items(sch, assets, ps, e, b + rest, fuel);
}

proof fn lemma_flatten_parts(s: Seq<Seq<u8>>)
    requires
        s.len() <= 4,
    ensures
        s.len() == 0 ==> s.flatten() == Seq::<u8>::empty(),
        s.len() == 3 ==> s.flatten() == s[0] + s[1] + s[2],
        s.len() == 4 ==> s.flatten() == s[0] + s[1] + s[2] + s[3],
{
    if s.len() > 0 {
        let s1 = s.drop_first();
        if s1.len() > 0 {
            let s2 = s1.drop_first();
            if s2.len() > 0 {
                let s3 = s2.drop_first();
                if s3.len() > 0 {
                    let s4 = s3.drop_first();
                    assert(s4.flatten() == Seq::<u8>::empty());
                    assert(s3.flatten() == s3[0] + s4.flatten());
                    assert(s3.flatten() =~= s3[0]);
                } else {
                    assert(s3.flatten() == Seq::<u8>::empty());
                }
                assert(s2.flatten() == s2[0] + s3.flatten());
            }
            assert(s1.flatten() == s1[0] + s2.flatten());
        }
        assert(s.flatten() == s[0] + s1.flatten());
        if s.len() == 3 {
            assert(s.flatten() =~= s[0] + s[1] + s[2]);
        }
        if s.len() == 4 {
            assert(s.flatten() =~= s[0] + s[1] + s[2] + s[3]);
        }
    }
}

/// The bytes that a wire value held as a struct member is written as are
/// its floats, one after another.
proof fn lemma_wire_floats_bytes(sch: SchemaModel, w: WireModel)
    requires
        wire_floats(w) is Some,
    ensures
        wire_floats(w) matches Some((e, xs)) && wire_payload(w) == items_out(sch, e, xs),
{
    lemma_slot_names();
    match w {
        WireModel::Vector(x, y, z) => {
            let v = seq![x, y, z];
            let g = |f: F64Val| ValueModel::F64(f);
            let h = |f: F64Val| f64_bytes(f);
            assert forall|f: F64Val| #[trigger] value_out(sch, "f64"@, g(f)) == ok(h(f)) by {}
            lemma_items_flat(sch, "f64"@, v, g, h);
            lemma_flatten_parts(v.map_values(h));
        },
        WireModel::Rotator(x, y, z) => {
            let v = seq![x, y, z];
            let g = |f: F64Val| ValueModel::F64(f);
            let h = |f: F64Val| f64_bytes(f);
            assert forall|f: F64Val| #[trigger] value_out(sch, "f64"@, g(f)) == ok(h(f)) by {}
            lemma_items_flat(sch, "f64"@, v, g, h);
            lemma_flatten_parts(v.map_values(h));
        },
        WireModel::Quat(x, y, z, q) => {
            let v = seq![x, y, z, q];
            let g = |f: F64Val| ValueModel::F64(f);
            let h = |f: F64Val| f64_bytes(f);
            assert forall|f: F64Val| #[trigger] value_out(sch, "f64"@, g(f)) == ok(h(f)) by {}
            lemma_items_flat(sch, "f64"@, v, g, h);
            lemma_flatten_parts(v.map_values(h));
        },
        WireModel::LinearColor(r, gg, b, a) => {
            let v = seq![r, gg, b, a];
            let g = |f: F32Val| ValueModel::F32(f);
            let h = |f: F32Val| f32_bytes(f);
            assert forall|f: F32Val| #[trigger] value_out(sch, "f32"@, g(f)) == ok(h(f)) by {}
            lemma_items_flat(sch, "f32"@, v, g, h);
            lemma_flatten_parts(v.map_values(h));
        },
        WireModel::Exec => {
            let v = Seq::<F64Val>::empty();
            let g = |f: F64Val| ValueModel::F64(f);
            let h = |f: F64Val| f64_bytes(f);
            assert forall|f: F64Val| #[trigger] value_out(sch, "f64"@, g(f)) == ok(h(f)) by {}
            lemma_items_flat(sch, "f64"@, v, g, h);
            lemma_flatten_parts(v.map_values(h));
        },
        _ => {},
    }
}

/// A wire value held as a struct member, written into a named variant that
/// has that member, reads back as the member struct (see
/// [`slots_member_read`]).
#[verifier::rlimit(80)]
#[verifier::spinoff_prover]
proof fn lemma_named_wire_slots_rt(sch: SchemaModel, assets: nat, ty: Seq<char>, k: int, w: WireModel, rest: Seq<u8>, fuel: nat)
    requires
        named_ok(ty),
        first_named(sch.variants@, ty) == Some(k),
        0 <= k < sch.variants@.len(),
        position_of(sch.variants@[k].1@, wire_member(w)) is Some,
        wire_floats(w) matches Some((e, xs)) && slots_member_read(sch, assets, wire_member(w), e, xs) is Some,
        fuel > 1,
    ensures
        wire_floats(w) matches Some((e, xs)) && named_wire(sch.variants@[k].1@, ty, w) matches Some(Ok(b))
            && p_type(sch, assets, ty, b + rest, fuel) == r_ok(
            slots_member_read(sch, assets, wire_member(w), e, xs)->Some_0,
            rest,
        ),
{
    lemma_slot_names();
    crate::value::lemma_first_named(sch.variants@, ty);
    let members = sch.variants@[k].1@;
    crate::value::lemma_position_of(members, wire_member(w));
    let t = position_of(members, wire_member(w))->Some_0;
    assert(sch.variants@[k].0@ == ty);
    let (e, xs) = wire_floats(w)->Some_0;
    let m = wire_member(w);
    crate::value::lemma_first_named(sch.structs@, m);
    let j = first_named(sch.structs@, m)->Some_0;
    let ps = sch.structs@[j].1@;
    lemma_wire_floats_bytes(sch, w);
    lemma_slots_props(sch, assets, ps, e, xs, rest, (fuel - 1) as nat);
    let pay = items_out(sch, e, xs)->Some_0->Ok_0;
    assert(interned(sch, m)) by {
        assert(sch.structs@[j].0@ == m);
    }
    assert(p_type(sch, assets, m, pay + rest, (fuel - 1) as nat) == p_named(sch, assets, m, pay + rest, (fuel - 1) as nat));
    assert(named_wire(members, ty, w) == Some(Ok::<Seq<u8>, crate::value::VErr>(uint_bytes(t as u64) + pay)));
    assert(uint_bytes(t as u64) + pay + rest =~= uint_bytes(t as u64) + (pay + rest));
    crate::value_read::lemma_variant_read(sch, assets, k, t, pay + rest, fuel);
}

/// A number laid out flat reads back as [`flat_num_read`] says.
#[verifier::rlimit(80)]
#[verifier::spinoff_prover]
proof fn lemma_flat_num_rt(sch: SchemaModel, ty: Seq<char>, v: ValueModel, rest: Seq<u8>, fuel: nat)
    requires
        flat_num_read(ty, v) is Some,
    ensures
        flat_out(sch, ty, v) matches Some(Ok(b)) && b.len() == flat_width(ty) && p_flat(sch, ty, b + rest, fuel)
            == r_ok(flat_num_read(ty, v)->Some_0, rest),
{
    lemma_slot_names();
    match v {
        ValueModel::U8(x) => {
            assert((seq![x] + rest).take(1) =~= seq![x]);
            assert((seq![x] + rest).skip(1) =~= rest);
        },
        ValueModel::I8(x) => {
            let b = i8_bits(x);
            assert(i8_of_bits(b) == x);
            assert((seq![b] + rest).take(1) =~= seq![b]);
            assert((seq![b] + rest).skip(1) =~= rest);
        },
        ValueModel::U16(x) => {
            lemma_u16_le(x);
            assert((u16_le(x) + rest).take(2) =~= u16_le(x));
            assert((u16_le(x) + rest).skip(2) =~= rest);
        },
        ValueModel::I16(x) => {
            lemma_i16_le(x);
            assert((i16_le(x) + rest).take(2) =~= i16_le(x));
            assert((i16_le(x) + rest).skip(2) =~= rest);
        },
        ValueModel::U32(x) => {
            lemma_u32_le(x);
            assert((u32_le(x) + rest).take(4) =~= u32_le(x));
            assert((u32_le(x) + rest).skip(4) =~= rest);
        },
        ValueModel::I32(x) => {
            lemma_i32_le(x);
            assert((i32_le(x) + rest).take(4) =~= i32_le(x));
            assert((i32_le(x) + rest).skip(4) =~= rest);
        },
        ValueModel::F32(f) => {
            lemma_u32_le(f.bits);
            assert((u32_le(f.bits) + rest).take(4) =~= u32_le(f.bits));
            assert((u32_le(f.bits) + rest).skip(4) =~= rest);
        },
        ValueModel::U64(x) => {
            lemma_u64_le(x);
            assert((u64_le(x) + rest).take(8) =~= u64_le(x));
            assert((u64_le(x) + rest).skip(8) =~= rest);
        },
        ValueModel::I64(x) => {
            lemma_i64_le(x);
            assert((i64_le(x) + rest).take(8) =~= i64_le(x));
            assert((i64_le(x) + rest).skip(8) =~= rest);
        },
        ValueModel::F64(f) => {
            lemma_u64_le(f.bits);
            assert((u64_le(f.bits) + rest).take(8) =~= u64_le(f.bits));
            assert((u64_le(f.bits) + rest).skip(8) =~= rest);
        },
        _ => {},
    }
}

/// Numbers laid out flat one after another read back one by one.
#[verifier::rlimit(80)]
#[verifier::spinoff_prover]
proof fn lemma_flat_nums_rt(sch: SchemaModel, ty: Seq<char>, xs: Seq<ValueModel>, rest: Seq<u8>, fuel: nat)
    requires
        flat_nums_read(ty, xs) is Some,
    ensures
        flat_items(sch, ty, xs) matches Some(Ok(b)) && b.len() == xs.len() * flat_width(ty) && p_flat_items(
            sch,
            ty,
            xs.len(),
            b + rest,
            fuel,
        ) == Some(Ok::<(Seq<ReadView>, Seq<u8>), MetaErr>((flat_nums_read(ty, xs)->Some_0, rest))),
    decreases xs.len(),
{
    if xs.len() > 0 {
        let tail = xs.drop_first();
        lemma_flat_nums_rt(sch, ty, tail, rest, fuel);
        let bt = flat_items(sch, ty, tail)->Some_0->Ok_0;
        lemma_flat_num_rt(sch, ty, xs[0], bt + rest, fuel);
        let b0 = flat_out(sch, ty, xs[0])->Some_0->Ok_0;
        assert(flat_items(sch, ty, xs) == Some(Ok::<Seq<u8>, crate::value::VErr>(b0 + bt)));
        assert(b0 + bt + rest =~= b0 + (bt + rest));
        assert(tail.len() == (xs.len() - 1) as nat);
        let w = flat_width(ty);
        assert(w + tail.len() * w == xs.len() * w) by (nonlinear_arith)
            requires
                tail.len() == xs.len() - 1,
        ;
    } else {
        assert(0 * flat_width(ty) == 0);
    }
}

/// The header of `n` bytes of binary data gives back `n`.
proof fn lemma_bin_header(n: nat, body: Seq<u8>)
    requires
        n <= u32::MAX,
    ensures
        mp_bin_len(bin_header(n) + body) == Some((n, bin_header(n).len() as int)),
{
    lemma_p256_values();
    let s = bin_header(n) + body;
    if n < 256 {
        lemma_be_bytes(n, 1);
        assert(be_bytes(n, 1) =~= seq![(n % 256) as u8]);
        assert(s.subrange(1, 2) =~= be_bytes(n, 1));
    } else if n < 65536 {
        lemma_be_bytes(n, 2);
        assert(s.subrange(1, 3) =~= be_bytes(n, 2));
    } else {
        lemma_be_bytes(n, 4);
        assert(s.subrange(1, 5) =~= be_bytes(n, 4));
    }
}

proof fn lemma_flat_size_num(sch: SchemaModel, t: Seq<char>, fuel: nat)
    requires
        flat_width(t) > 0,
    ensures
        flat_size(sch, t, fuel) == Some(flat_width(t)),
{
    lemma_slot_names();
}

/// A flat array of numbers in a struct property reads back as its numbers.
#[verifier::rlimit(80)]
#[verifier::spinoff_prover]
proof fn lemma_flat_prop_rt(sch: SchemaModel, assets: nat, t: String, xs: Seq<ValueModel>, rest: Seq<u8>, fuel: nat)
    requires
        fuel > 0,
        flat_width(t@) > 0,
        xs.len() * flat_width(t@) <= u32::MAX,
        flat_nums_read(t@, xs) is Some,
    ensures
        flat_block(sch, t@, xs) matches Some(Ok(b)) && p_prop(sch, assets, BrdbStructPropRaw::FlatArray(t), b + rest, fuel)
            == r_ok(ReadView::FlatArray(flat_nums_read(t@, xs)->Some_0), rest),
{
    let w = flat_width(t@);
    let depth = type_depth(sch);
    lemma_flat_size_num(sch, t@, depth);
    lemma_flat_nums_rt(sch, t@, xs, Seq::<u8>::empty(), depth);
    let bi = flat_items(sch, t@, xs)->Some_0->Ok_0;
    let n = xs.len() * w;
    assert(bi + Seq::<u8>::empty() =~= bi);
    let h = bin_header(n);
    assert(flat_block(sch, t@, xs) == Some(Ok::<Seq<u8>, crate::value::VErr>(h + bi)));
    lemma_bin_header(n, bi + rest);
    let s = h + bi + rest;
    assert(s =~= h + (bi + rest));
    let r = s.skip(h.len() as int);
    assert(r =~= bi + rest);
    assert(r.take(n as int) =~= bi);
    assert(r.skip(n as int) =~= rest);
    assert(n % w == 0 && n / w == xs.len()) by (nonlinear_arith)
        requires
            n == xs.len() * w,
            w > 0,
    ;
}

proof fn lemma_flat_prop_empty(sch: SchemaModel, assets: nat, t: String, rest: Seq<u8>, fuel: nat)
    requires
        fuel > 0,
        flat_width(t@) > 0,
    ensures
        p_prop(sch, assets, BrdbStructPropRaw::FlatArray(t), bin_header(0) + rest, fuel) == r_ok(
            ReadView::FlatArray(Seq::empty()),
            rest,
        ),
{
    let w = flat_width(t@);
    lemma_flat_size_num(sch, t@, type_depth(sch));
    lemma_bin_header(0, rest);
    let s = bin_header(0) + rest;
    assert(s.skip(2) =~= rest);
    assert(rest.skip(0) =~= rest);
    assert(0nat % w == 0 && 0nat / w == 0) by (nonlinear_arith)
        requires
            w > 0,
    ;
}

#[verifier::rlimit(80)]
#[verifier::spinoff_prover]
proof fn lemma_prop_flat_step(
    sch: SchemaModel,
    assets: nat,
    name: Seq<char>,
    t: String,
    v: ValueModel,
    rest: Seq<u8>,
    fuel: nat,
)
    requires
        fuel > 0,
        v is Struct,
        prop_read(sch, assets, name, BrdbStructPropRaw::FlatArray(t), v, fuel) is Some,
    ensures
        prop_out(sch, name, BrdbStructPropRaw::FlatArray(t), v) matches Some(Ok(b)) && p_prop(
            sch,
            assets,
            BrdbStructPropRaw::FlatArray(t),
            b + rest,
            fuel,
        ) == r_ok(prop_read(sch, assets, name, BrdbStructPropRaw::FlatArray(t), v, fuel)->Some_0, rest),
{
    let fields = v->Struct_0;
    let p = BrdbStructPropRaw::FlatArray(t);
    match first_named(fields@, name) {
        Some(k) => match fields@[k].1 {
            ValueModel::Array(a) => {
                let xs = a@;
                assert(prop_out(sch, name, p, v) == flat_block(sch, t@, xs));
                lemma_flat_prop_rt(sch, assets, t, xs, rest, fuel);
            },
            ValueModel::FlatArray(a) => {
                let xs = a@;
                assert(prop_out(sch, name, p, v) == flat_block(sch, t@, xs));
                lemma_flat_prop_rt(sch, assets, t, xs, rest, fuel);
            },
            _ => {
                assert(prop_out(sch, name, p, v) == Some(Ok::<Seq<u8>, crate::value::VErr>(bin_header(0))));
                lemma_flat_prop_empty(sch, assets, t, rest, fuel);
            },
        },
        None => {
            assert(prop_out(sch, name, p, v) == Some(Ok::<Seq<u8>, crate::value::VErr>(bin_header(0))));
            lemma_flat_prop_empty(sch, assets, t, rest, fuel);
        },
    }
}

/// A value written as type `ty` of the schema reads back as
/// [`value_read_of`] says, whatever follows it, and the reader stops right
/// after it: built-in slots, named variants' wire values, enums, and structs
/// whose properties hold such values, zero values or arrays of them.
#[verifier::rlimit(80)]
#[verifier::spinoff_prover]
pub proof fn lemma_value_write_read(sch: SchemaModel, assets: nat, ty: Seq<char>, v: ValueModel, rest: Seq<u8>, fuel: nat)
    requires
        value_read_of(sch, assets, ty, v, fuel) is Some,
    ensures
        value_out(sch, ty, v) matches Some(Ok(b)) && p_type(sch, assets, ty, b + rest, fuel) == r_ok(
            value_read_of(sch, assets, ty, v, fuel)->Some_0,
            rest,
        ),
    decreases v, 2nat, 0nat,
{
    if is_builtin(ty) {
        lemma_leaf_write_read(sch, assets, ty, v, rest, fuel);
    } else {
        lemma_slot_names();
        match first_named(sch.variants@, ty) {
            Some(k) => match v {
                ValueModel::Wire(w) => if wire_floats(w) is Some {
                    lemma_named_wire_slots_rt(sch, assets, ty, k, w, rest, fuel);
                } else {
                    lemma_named_wire_rt(sch, assets, ty, k, w, rest, fuel);
                },
                ValueModel::WireArray(a) => lemma_named_array_rt(sch, assets, ty, k, a, rest, fuel),
                _ => {},
            },
            None => match first_named(sch.structs@, ty) {
                Some(k) => {
                    crate::value::lemma_first_named(sch.structs@, ty);
                    let ps = sch.structs@[k].1@;
                    lemma_props_write_read(sch, assets, ps, v, rest, fuel);
                    assert(interned(sch, ty)) by {
                        assert(sch.structs@[k].0@ == ty);
                    }
                    let b = props_out(sch, ps, v)->Some_0->Ok_0;
                    assert(value_out(sch, ty, v) == Some(Ok::<Seq<u8>, crate::value::VErr>(b)));
                    assert(p_type(sch, assets, ty, b + rest, fuel) == p_named(sch, assets, ty, b + rest, fuel));
                },
                None => {
                    let k = first_named(sch.enums@, ty)->Some_0;
                    let e = v->Enum_0;
                    assert((e as i32) as u64 == e);
                    assert((sch.enums@[k].1@.len() as i32) == sch.enums@[k].1@.len());
                    assert(value_out(sch, ty, v) == Some(Ok::<Seq<u8>, crate::value::VErr>(uint_bytes(e))));
                    lemma_enum_read(sch, assets, ty, k, e, rest, fuel);
                },
            },
        }
    }
}

/// The properties `ps` of a struct value read back in order (see
/// [`props_read`]).
#[verifier::rlimit(80)]
#[verifier::spinoff_prover]
proof fn lemma_props_write_read(
    sch: SchemaModel,
    assets: nat,
    ps: Seq<(String, BrdbStructPropRaw)>,
    v: ValueModel,
    rest: Seq<u8>,
    fuel: nat,
)
    requires
        props_read(sch, assets, ps, v, fuel) is Some,
    ensures
        props_out(sch, ps, v) matches Some(Ok(b)) && p_props(sch, assets, ps, b + rest, fuel) == Some(
            Ok::<(Seq<(Seq<char>, ReadView)>, Seq<u8>), MetaErr>((props_read(sch, assets, ps, v, fuel)->Some_0, rest)),
        ),
    decreases v, 1nat, ps.len(),
{
    if ps.len() > 0 {
        let tail = ps.drop_first();
        lemma_props_write_read(sch, assets, tail, v, rest, fuel);
        let bt = props_out(sch, tail, v)->Some_0->Ok_0;
        lemma_prop_write_read(sch, assets, ps[0].0@, ps[0].1, v, bt + rest, fuel);
        let b0 = prop_out(sch, ps[0].0@, ps[0].1, v)->Some_0->Ok_0;
        assert(props_out(sch, ps, v) == Some(Ok::<Seq<u8>, crate::value::VErr>(b0 + bt)));
        assert(b0 + bt + rest =~= b0 + (bt + rest));
    }
}

proof fn lemma_prop_type_step(
    sch: SchemaModel,
    assets: nat,
    name: Seq<char>,
    t: String,
    v: ValueModel,
    rest: Seq<u8>,
    fuel: nat,
)
    requires
        fuel > 0,
        v is Struct,
        prop_read(sch, assets, name, BrdbStructPropRaw::Type(t), v, fuel) is Some,
        match first_named(v->Struct_0@, name) {
            Some(k) => value_out(sch, t@, v->Struct_0@[k].1) matches Some(Ok(b)) && p_type(
                sch,
                assets,
                t@,
                b + rest,
                (fuel - 1) as nat,
            ) == r_ok(prop_read(sch, assets, name, BrdbStructPropRaw::Type(t), v, fuel)->Some_0, rest),
            None => zero_out(sch, t@, type_depth(sch)) matches Some(Ok(b)) && p_type(
                sch,
                assets,
                t@,
                b + rest,
                (fuel - 1) as nat,
            ) == r_ok(prop_read(sch, assets, name, BrdbStructPropRaw::Type(t), v, fuel)->Some_0, rest),
        },
    ensures
        prop_out(sch, name, BrdbStructPropRaw::Type(t), v) matches Some(Ok(b)) && p_prop(
            sch,
            assets,
            BrdbStructPropRaw::Type(t),
            b + rest,
            fuel,
        ) == r_ok(prop_read(sch, assets, name, BrdbStructPropRaw::Type(t), v, fuel)->Some_0, rest),
{
}

#[verifier::spinoff_prover]
proof fn lemma_array_bytes_read(
    sch: SchemaModel,
    assets: nat,
    t: String,
    n: nat,
    bi: Seq<u8>,
    rest: Seq<u8>,
    fuel: nat,
    rs: Seq<ReadView>,
)
    requires
        fuel > 0,
        n <= u32::MAX,
        p_items(sch, assets, t@, n, bi + rest, (fuel - 1) as nat) == Some(
            Ok::<(Seq<ReadView>, Seq<u8>), MetaErr>((rs, rest)),
        ),
    ensures
        p_prop(sch, assets, BrdbStructPropRaw::Array(t), array_header(n) + bi + rest, fuel) == r_ok(
            ReadView::Array(rs),
            rest,
        ),
{
    lemma_array_header(n, bi + rest);
    let h = array_header(n);
    let s = h + bi + rest;
    assert(s =~= h + (bi + rest));
    assert(s.skip(h.len() as int) =~= bi + rest);
}

#[verifier::rlimit(80)]
#[verifier::spinoff_prover]
proof fn lemma_array_prop_read(sch: SchemaModel, assets: nat, t: String, xs: Seq<ValueModel>, rest: Seq<u8>, fuel: nat)
    requires
        fuel > 0,
        xs.len() <= u32::MAX,
        items_read(sch, assets, t@, xs, (fuel - 1) as nat) is Some,
        items_out(sch, t@, xs) matches Some(Ok(b)) && p_items(sch, assets, t@, xs.len(), b + rest, (fuel - 1) as nat)
            == Some(
            Ok::<(Seq<ReadView>, Seq<u8>), MetaErr>((items_read(sch, assets, t@, xs, (fuel - 1) as nat)->Some_0, rest)),
        ),
    ensures
        array_out(sch, t@, xs) matches Some(Ok(b)) && p_prop(sch, assets, BrdbStructPropRaw::Array(t), b + rest, fuel)
            == r_ok(ReadView::Array(items_read(sch, assets, t@, xs, (fuel - 1) as nat)->Some_0), rest),
{
    let bi = items_out(sch, t@, xs)->Some_0->Ok_0;
    let rs = items_read(sch, assets, t@, xs, (fuel - 1) as nat)->Some_0;
    let h = array_header(xs.len());
    assert(array_out(sch, t@, xs) == Some(Ok::<Seq<u8>, crate::value::VErr>(h + bi)));
    lemma_array_bytes_read(sch, assets, t, xs.len(), bi, rest, fuel, rs);
}

#[verifier::spinoff_prover]
proof fn lemma_empty_array_prop_read(sch: SchemaModel, assets: nat, t: String, rest: Seq<u8>, fuel: nat)
    requires
        fuel > 0,
    ensures
        p_prop(sch, assets, BrdbStructPropRaw::Array(t), array_header(0) + rest, fuel) == r_ok(
            ReadView::Array(Seq::empty()),
            rest,
        ),
{
    lemma_empty_array_read(sch, assets, t@, rest, (fuel - 1) as nat);
}

#[verifier::rlimit(80)]
#[verifier::spinoff_prover]
proof fn lemma_prop_array_step(
    sch: SchemaModel,
    assets: nat,
    name: Seq<char>,
    t: String,
    v: ValueModel,
    rest: Seq<u8>,
    fuel: nat,
)
    requires
        fuel > 0,
        v is Struct,
        prop_read(sch, assets, name, BrdbStructPropRaw::Array(t), v, fuel) is Some,
        forall|xs: Seq<ValueModel>|
            #![trigger items_out(sch, t@, xs)]
            (match first_named(v->Struct_0@, name) {
                Some(k) => (v->Struct_0@[k].1 matches ValueModel::Array(a) && a@ == xs) || (
                v->Struct_0@[k].1 matches ValueModel::FlatArray(a) && a@ == xs),
                None => false,
            }) ==> (items_out(sch, t@, xs) matches Some(Ok(b)) && p_items(
                sch,
                assets,
                t@,
                xs.len(),
                b + rest,
                (fuel - 1) as nat,
            ) == Some(
                Ok::<(Seq<ReadView>, Seq<u8>), MetaErr>(
                    (items_read(sch, assets, t@, xs, (fuel - 1) as nat)->Some_0, rest),
                ),
            )),
    ensures
        prop_out(sch, name, BrdbStructPropRaw::Array(t), v) matches Some(Ok(b)) && p_prop(
            sch,
            assets,
            BrdbStructPropRaw::Array(t),
            b + rest,
            fuel,
        ) == r_ok(prop_read(sch, assets, name, BrdbStructPropRaw::Array(t), v, fuel)->Some_0, rest),
{
    let fields = v->Struct_0;
    let p = BrdbStructPropRaw::Array(t);
    match first_named(fields@, name) {
        Some(k) => match fields@[k].1 {
            ValueModel::Array(a) => {
                let xs = a@;
                assert(items_out(sch, t@, xs) matches Some(Ok(_)));
                assert(prop_out(sch, name, p, v) == array_out(sch, t@, xs));
                assert(prop_read(sch, assets, name, p, v, fuel) == Some(
                    ReadView::Array(items_read(sch, assets, t@, xs, (fuel - 1) as nat)->Some_0),
                ));
                lemma_array_prop_read(sch, assets, t, xs, rest, fuel);
            },
            ValueModel::FlatArray(a) => {
                let xs = a@;
                assert(items_out(sch, t@, xs) matches Some(Ok(_)));
                assert(prop_out(sch, name, p, v) == array_out(sch, t@, xs));
                assert(prop_read(sch, assets, name, p, v, fuel) == Some(
                    ReadView::Array(items_read(sch, assets, t@, xs, (fuel - 1) as nat)->Some_0),
                ));
                lemma_array_prop_read(sch, assets, t, xs, rest, fuel);
            },
            _ => {
                assert(prop_out(sch, name, p, v) == Some(Ok::<Seq<u8>, crate::value::VErr>(array_header(0))));
                lemma_empty_array_prop_read(sch, assets, t, rest, fuel);
            },
        },
        None => {
            assert(prop_out(sch, name, p, v) == Some(Ok::<Seq<u8>, crate::value::VErr>(array_header(0))));
            lemma_empty_array_prop_read(sch, assets, t, rest, fuel);
        },
    }
}

/// One property of a struct value read back (see [`prop_read`]).
#[verifier::rlimit(80)]
#[verifier::spinoff_prover]
proof fn lemma_prop_write_read(
    sch: SchemaModel,
    assets: nat,
    name: Seq<char>,
    p: BrdbStructPropRaw,
    v: ValueModel,
    rest: Seq<u8>,
    fuel: nat,
)
    requires
        prop_read(sch, assets, name, p, v, fuel) is Some,
    ensures
        prop_out(sch, name, p, v) matches Some(Ok(b)) && p_prop(sch, assets, p, b + rest, fuel) == r_ok(
            prop_read(sch, assets, name, p, v, fuel)->Some_0,
            rest,
        ),
    decreases v, 1nat, 0nat,
{
    let fields = v->Struct_0;
    let f = first_named(fields@, name);
    let f1 = (fuel - 1) as nat;
    match p {
        BrdbStructPropRaw::Type(t) => {
            match f {
                Some(k) => {
                    lemma_value_write_read(sch, assets, t@, fields@[k].1, rest, f1);
                },
                None => {
                    lemma_zero_value_write_read(sch, assets, t@, rest, type_depth(sch), f1);
                },
            }
            lemma_prop_type_step(sch, assets, name, t, v, rest, fuel);
        },
        BrdbStructPropRaw::Array(t) => {
            assert forall|xs: Seq<ValueModel>|
                #![trigger items_out(sch, t@, xs)]
                (match f {
                    Some(k) => (fields@[k].1 matches ValueModel::Array(a) && a@ == xs) || (
                    fields@[k].1 matches ValueModel::FlatArray(a) && a@ == xs),
                    None => false,
                }) implies (items_out(sch, t@, xs) matches Some(Ok(b)) && p_items(
                    sch,
                    assets,
                    t@,
                    xs.len(),
                    b + rest,
                    f1,
                ) == Some(Ok::<(Seq<ReadView>, Seq<u8>), MetaErr>((items_read(sch, assets, t@, xs, f1)->Some_0, rest)))) by {
                lemma_items_write_read(sch, assets, t@, xs, rest, f1);
            }
            lemma_prop_array_step(sch, assets, name, t, v, rest, fuel);
        },
        BrdbStructPropRaw::FlatArray(t) => {
            lemma_prop_flat_step(sch, assets, name, t, v, rest, fuel);
        },
        _ => {},
    }
}

/// The items of an array written as type `t` read back in order (see
/// [`items_read`]).
#[verifier::rlimit(80)]
#[verifier::spinoff_prover]
proof fn lemma_items_write_read(sch: SchemaModel, assets: nat, t: Seq<char>, xs: Seq<ValueModel>, rest: Seq<u8>, fuel: nat)
    requires
        items_read(sch, assets, t, xs, fuel) is Some,
    ensures
        items_out(sch, t, xs) matches Some(Ok(b)) && p_items(sch, assets, t, xs.len(), b + rest, fuel) == Some(
            Ok::<(Seq<ReadView>, Seq<u8>), MetaErr>((items_read(sch, assets, t, xs, fuel)->Some_0, rest)),
        ),
    decreases xs, 0nat, xs.len(),
{
    if xs.len() > 0 {
        let tail = xs.drop_first();
        lemma_items_write_read(sch, assets, t, tail, rest, fuel);
        let bt = items_out(sch, t, tail)->Some_0->Ok_0;
        lemma_value_write_read(sch, assets, t, xs[0], bt + rest, fuel);
        let b0 = value_out(sch, t, xs[0])->Some_0->Ok_0;
        assert(items_out(sch, t, xs) == Some(Ok::<Seq<u8>, crate::value::VErr>(b0 + bt)));
        assert(b0 + bt + rest =~= b0 + (bt + rest));
        assert(tail.len() == (xs.len() - 1) as nat);
    }
}

/// Reading with [`read_type`](crate::value_read::read_type) what
/// [`write_brdb`](crate::value::write_brdb) wrote: where the written value
/// comes back with the fuel that `read_type` takes for the input, writing
/// succeeds, `read_type`'s requirement holds, and it reads the value back
/// as [`value_read_of`] says, stopping right after it.
pub proof fn lemma_write_brdb_read_type(sch: SchemaModel, assets: nat, ty: Seq<char>, v: ValueModel, rest: Seq<u8>)
    requires
        value_read_of(
            sch,
            assets,
            ty,
            v,
            read_fuel(sch, value_out(sch, ty, v)->Some_0->Ok_0 + rest),
        ) is Some,
    ensures
        value_out(sch, ty, v) matches Some(Ok(b)) && p_type(sch, assets, ty, b + rest, read_fuel(sch, b + rest))
            == r_ok(value_read_of(sch, assets, ty, v, read_fuel(sch, b + rest))->Some_0, rest),
{
    let f = read_fuel(sch, value_out(sch, ty, v)->Some_0->Ok_0 + rest);
    lemma_value_write_read(sch, assets, ty, v, rest, f);
}

} // verus!
