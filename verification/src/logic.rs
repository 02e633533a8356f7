//! The logic gates of wire graphs: for each gate, the component type and
//! data struct it is saved as, its ports, and the brick that carries it.
use vstd::prelude::*;

use crate::model::{str_eq, BString, BrickType, WirePort};
use crate::mps::{contains, occurs_at};
use crate::schema_meta::{
    meta_view, props_view, BrdbSchemaMetaEnum, BrdbSchemaMetaStruct, BrdbSchemaMetaVariant, BrdbStructPropRaw,
    MetaView, PropView,
};

verus! {

/// A logic gate.
#[derive(Debug, Clone, Copy, PartialEq, Eq, Hash)]
pub enum LogicGate {
    BoolAnd,
    BoolOr,
    BoolXor,
    BoolNand,
    BoolNor,
    BoolNot,
    BitAnd,
    BitOr,
    BitXor,
    BitNand,
    BitNor,
    BitNot,
    BitShiftLeft,
    BitShiftRight,
    Add,
    Sub,
    Mul,
    ModFloored,
    Mod,
    Div,
    Ceil,
    Floor,
    Blend,
    Eq,
    Neq,
    Lt,
    Leq,
    Gt,
    Geq,
    Const,
    EdgeDetector,
}

/// The component type a gate is saved as.
pub open spec fn gate_component_name(g: LogicGate) -> Seq<char> {
    match g {
        LogicGate::BoolAnd => "BrickComponentType_WireGraph_Expr_LogicalAND"@,
        LogicGate::BoolOr => "BrickComponentType_WireGraph_Expr_LogicalOR"@,
        LogicGate::BoolXor => "BrickComponentType_WireGraph_Expr_LogicalXOR"@,
        LogicGate::BoolNand => "BrickComponentType_WireGraph_Expr_LogicalNAND"@,
        LogicGate::BoolNor => "BrickComponentType_WireGraph_Expr_LogicalNOR"@,
        LogicGate::BoolNot => "BrickComponentType_WireGraph_Expr_LogicalNOT"@,
        LogicGate::BitAnd => "BrickComponentType_WireGraph_Expr_BitwiseAND"@,
        LogicGate::BitOr => "BrickComponentType_WireGraph_Expr_BitwiseOR"@,
        LogicGate::BitXor => "BrickComponentType_WireGraph_Expr_BitwiseXOR"@,
        LogicGate::BitNand => "BrickComponentType_WireGraph_Expr_BitwiseNAND"@,
        LogicGate::BitNor => "BrickComponentType_WireGraph_Expr_BitwiseNOR"@,
        LogicGate::BitNot => "BrickComponentType_WireGraph_Expr_BitwiseNOT"@,
        LogicGate::BitShiftLeft => "BrickComponentType_WireGraph_Expr_BitwiseShiftLeft"@,
        LogicGate::BitShiftRight => "BrickComponentType_WireGraph_Expr_BitwiseShiftRight"@,
        LogicGate::Add => "BrickComponentType_WireGraph_Expr_MathAdd"@,
        LogicGate::Sub => "BrickComponentType_WireGraph_Expr_MathSubtract"@,
        LogicGate::Mul => "BrickComponentType_WireGraph_Expr_MathMultiply"@,
        LogicGate::ModFloored => "BrickComponentType_WireGraph_Expr_MathModuloFloored"@,
        LogicGate::Mod => "BrickComponentType_WireGraph_Expr_MathModulo"@,
        LogicGate::Div => "BrickComponentType_WireGraph_Expr_MathDivide"@,
        LogicGate::Ceil => "BrickComponentType_WireGraph_Expr_Ceil"@,
        LogicGate::Floor => "BrickComponentType_WireGraph_Expr_Floor"@,
        LogicGate::Blend => "BrickComponentType_WireGraph_Expr_MathBlend"@,
        LogicGate::Eq => "BrickComponentType_WireGraph_Expr_CompareEqual"@,
        LogicGate::Neq => "BrickComponentType_WireGraph_Expr_CompareNotEqual"@,
        LogicGate::Lt => "BrickComponentType_WireGraph_Expr_CompareLess"@,
        LogicGate::Leq => "BrickComponentType_WireGraph_Expr_CompareLessOrEqual"@,
        LogicGate::Gt => "BrickComponentType_WireGraph_Expr_CompareGreater"@,
        LogicGate::Geq => "BrickComponentType_WireGraph_Expr_CompareGreaterOrEqual"@,
        LogicGate::Const => "BrickComponentType_WireGraphPseudo_Const"@,
        LogicGate::EdgeDetector => "BrickComponent_WireGraph_Expr_EdgeDetector"@,
    }
}

/// The data struct a gate is saved with.
pub open spec fn gate_struct_name(g: LogicGate) -> Seq<char> {
    match g {
        LogicGate::BoolAnd => "BrickComponentData_WireGraph_Expr_BoolBool_Bool"@,
        LogicGate::BoolOr => "BrickComponentData_WireGraph_Expr_BoolBool_Bool"@,
        LogicGate::BoolXor => "BrickComponentData_WireGraph_Expr_BoolBool_Bool"@,
        LogicGate::BoolNand => "BrickComponentData_WireGraph_Expr_BoolBool_Bool"@,
        LogicGate::BoolNor => "BrickComponentData_WireGraph_Expr_BoolBool_Bool"@,
        LogicGate::BoolNot => "BrickComponentData_WireGraph_Expr_Bool_Bool"@,
        LogicGate::BitAnd => "BrickComponentData_WireGraph_Expr_IntInt_Int"@,
        LogicGate::BitOr => "BrickComponentData_WireGraph_Expr_IntInt_Int"@,
        LogicGate::BitXor => "BrickComponentData_WireGraph_Expr_IntInt_Int"@,
        LogicGate::BitNand => "BrickComponentData_WireGraph_Expr_IntInt_Int"@,
        LogicGate::BitNor => "BrickComponentData_WireGraph_Expr_IntInt_Int"@,
        LogicGate::BitNot => "BrickComponentData_WireGraph_Expr_Int_Int"@,
        LogicGate::BitShiftLeft => "BrickComponentData_WireGraph_Expr_IntInt_Int"@,
        LogicGate::BitShiftRight => "BrickComponentData_WireGraph_Expr_IntInt_Int"@,
        LogicGate::Add => "BrickComponentData_WireGraph_Expr_PrimMathVariantPrimMathVariant_PrimMathVariant"@,
        LogicGate::Sub => "BrickComponentData_WireGraph_Expr_PrimMathVariantPrimMathVariant_PrimMathVariant"@,
        LogicGate::Mul => "BrickComponentData_WireGraph_Expr_PrimMathVariantPrimMathVariant_PrimMathVariant"@,
        LogicGate::ModFloored => "BrickComponentData_WireGraph_Expr_PrimMathVariantPrimMathVariant_PrimMathVariant"@,
        LogicGate::Mod => "BrickComponentData_WireGraph_Expr_PrimMathVariantPrimMathVariant_PrimMathVariant"@,
        LogicGate::Div => "BrickComponentData_WireGraph_Expr_PrimMathVariantPrimMathVariant_PrimMathVariant"@,
        LogicGate::Ceil => "BrickComponentData_WireGraph_Expr_Float_Float"@,
        LogicGate::Floor => "BrickComponentData_WireGraph_Expr_Float_Float"@,
        LogicGate::Blend => "BrickComponentData_WireGraph_Expr_MathBlend"@,
        LogicGate::Eq => "BrickComponentData_WireGraph_Expr_Compare"@,
        LogicGate::Neq => "BrickComponentData_WireGraph_Expr_Compare"@,
        LogicGate::Lt => "BrickComponentData_WireGraph_Expr_MathCompare"@,
        LogicGate::Leq => "BrickComponentData_WireGraph_Expr_MathCompare"@,
        LogicGate::Gt => "BrickComponentData_WireGraph_Expr_MathCompare"@,
        LogicGate::Geq => "BrickComponentData_WireGraph_Expr_MathCompare"@,
        LogicGate::Const => "BrickComponentData_WireGraphPseudo_Const"@,
        LogicGate::EdgeDetector => "BrickComponentData_WireGraph_Expr_EdgeDetector"@,
    }
}

/// The basic brick asset that carries a gate.
pub open spec fn gate_brick(g: LogicGate) -> Seq<char> {
    match g {
        LogicGate::BoolAnd => "B_1x1_Gate_AND"@,
        LogicGate::BoolOr => "B_1x1_Gate_OR"@,
        LogicGate::BoolXor => "B_1x1_Gate_XOR"@,
        LogicGate::BoolNand => "B_1x1_Gate_NAND"@,
        LogicGate::BoolNor => "B_1x1_Gate_NOR"@,
        LogicGate::BoolNot => "B_1x1_NOT_Gate"@,
        LogicGate::BitAnd => "B_1x1_Gate_AND_Bitwise"@,
        LogicGate::BitOr => "B_1x1_Gate_OR_Bitwise"@,
        LogicGate::BitXor => "B_1x1_Gate_XOR_Bitwise"@,
        LogicGate::BitNand => "B_1x1_Gate_NAND_Bitwise"@,
        LogicGate::BitNor => "B_1x1_Gate_NOR_Bitwise"@,
        LogicGate::BitNot => "B_1x1_Gate_NOT_Bitwise"@,
        LogicGate::BitShiftLeft => "B_1x1_Gate_ShiftLeft_Bitwise"@,
        LogicGate::BitShiftRight => "B_1x1_Gate_ShiftRight_Bitwise"@,
        LogicGate::Add => "B_1x1_Gate_Add"@,
        LogicGate::Sub => "B_1x1_Gate_Subtract"@,
        LogicGate::Mul => "B_1x1_Gate_Multiply"@,
        LogicGate::ModFloored => "B_1x1_Gate_ModFloored"@,
        LogicGate::Mod => "B_1x1_Gate_Mod"@,
        LogicGate::Div => "B_1x1_Gate_Divide"@,
        LogicGate::Ceil => "B_1x1_Gate_Ceiling"@,
        LogicGate::Floor => "B_1x1_Gate_Floor"@,
        LogicGate::Blend => "B_1x1_Gate_Blend"@,
        LogicGate::Eq => "B_1x1_Gate_Equal"@,
        LogicGate::Neq => "B_1x1_Gate_NotEqual"@,
        LogicGate::Lt => "B_1x1_Gate_LessThan"@,
        LogicGate::Leq => "B_1x1_Gate_LessThanEqual"@,
        LogicGate::Gt => "B_1x1_Gate_GreaterThan"@,
        LogicGate::Geq => "B_1x1_Gate_GreaterThanEqual"@,
        LogicGate::Const => "B_1x1_Gate_Constant"@,
        LogicGate::EdgeDetector => "B_1x1_Gate_EdgeDetector"@,
    }
}

/// The wire ports of a gate, in order.
pub open spec fn gate_port_names(g: LogicGate) -> Seq<Seq<char>> {
    match g {
        LogicGate::BoolAnd => seq!["bInputA"@, "bInputB"@, "bOutput"@],
        LogicGate::BoolOr => seq!["bInputA"@, "bInputB"@, "bOutput"@],
        LogicGate::BoolXor => seq!["bInputA"@, "bInputB"@, "bOutput"@],
        LogicGate::BoolNand => seq!["bInputA"@, "bInputB"@, "bOutput"@],
        LogicGate::BoolNor => seq!["bInputA"@, "bInputB"@, "bOutput"@],
        LogicGate::BoolNot => seq!["bInput"@, "bOutput"@],
        LogicGate::BitAnd => seq!["InputA"@, "InputB"@, "Output"@],
        LogicGate::BitOr => seq!["InputA"@, "InputB"@, "Output"@],
        LogicGate::BitXor => seq!["InputA"@, "InputB"@, "Output"@],
        LogicGate::BitNand => seq!["InputA"@, "InputB"@, "Output"@],
        LogicGate::BitNor => seq!["InputA"@, "InputB"@, "Output"@],
        LogicGate::BitNot => seq!["Input"@, "Output"@],
        LogicGate::BitShiftLeft => seq!["InputA"@, "InputB"@, "Output"@],
        LogicGate::BitShiftRight => seq!["InputA"@, "InputB"@, "Output"@],
        LogicGate::Add => seq!["InputA"@, "InputB"@, "Output"@],
        LogicGate::Sub => seq!["InputA"@, "InputB"@, "Output"@],
        LogicGate::Mul => seq!["InputA"@, "InputB"@, "Output"@],
        LogicGate::ModFloored => seq!["InputA"@, "InputB"@, "Output"@],
        LogicGate::Mod => seq!["InputA"@, "InputB"@, "Output"@],
        LogicGate::Div => seq!["InputA"@, "InputB"@, "Output"@],
        LogicGate::Ceil => seq!["Input"@, "Output"@],
        LogicGate::Floor => seq!["Input"@, "Output"@],
        LogicGate::Blend => seq!["Blend"@, "InputA"@, "InputB"@, "Output"@],
        LogicGate::Eq => seq!["InputA"@, "InputB"@, "bOutput"@],
        LogicGate::Neq => seq!["InputA"@, "InputB"@, "bOutput"@],
        LogicGate::Lt => seq!["InputA"@, "InputB"@, "bOutput"@],
        LogicGate::Leq => seq!["InputA"@, "InputB"@, "bOutput"@],
        LogicGate::Gt => seq!["InputA"@, "InputB"@, "bOutput"@],
        LogicGate::Geq => seq!["InputA"@, "InputB"@, "bOutput"@],
        LogicGate::Const => seq!["Value"@],
        LogicGate::EdgeDetector => seq!["Input"@, "bPulseOnRisingEdge"@, "bPulseOnFallingEdge"@],
    }
}

/// How many inputs a gate takes.
pub open spec fn gate_num_inputs(g: LogicGate) -> usize {
    match g {
        LogicGate::BoolAnd => 2,
        LogicGate::BoolOr => 2,
        LogicGate::BoolXor => 2,
        LogicGate::BoolNand => 2,
        LogicGate::BoolNor => 2,
        LogicGate::BoolNot => 1,
        LogicGate::BitAnd => 2,
        LogicGate::BitOr => 2,
        LogicGate::BitXor => 2,
        LogicGate::BitNand => 2,
        LogicGate::BitNor => 2,
        LogicGate::BitNot => 1,
        LogicGate::BitShiftLeft => 2,
        LogicGate::BitShiftRight => 2,
        LogicGate::Add => 2,
        LogicGate::Sub => 2,
        LogicGate::Mul => 2,
        LogicGate::ModFloored => 2,
        LogicGate::Mod => 2,
        LogicGate::Div => 2,
        LogicGate::Ceil => 1,
        LogicGate::Floor => 1,
        LogicGate::Blend => 2,
        LogicGate::Eq => 2,
        LogicGate::Neq => 2,
        LogicGate::Lt => 2,
        LogicGate::Leq => 2,
        LogicGate::Gt => 2,
        LogicGate::Geq => 2,
        LogicGate::Const => 0,
        LogicGate::EdgeDetector => 2,
    }
}

/// Whether a gate works on booleans (its ports carry a `b` prefix).
pub open spec fn gate_is_bool(g: LogicGate) -> bool {
    g == LogicGate::BoolAnd || g == LogicGate::BoolOr || g == LogicGate::BoolXor || g == LogicGate::BoolNand || g == LogicGate::BoolNor || g == LogicGate::BoolNot
}

/// The views of a list of names.
pub open spec fn names_view(v: Seq<BString>) -> Seq<Seq<char>> {
    v.map_values(|s: BString| s@)
}

/// Where a port's data lies: the index among the inputs (first) or among
/// the outputs (second), by the name of the port.
pub open spec fn port_data_index(name: Seq<char>) -> (Option<usize>, Option<usize>) {
    if name == "Input"@ || name == "bInput"@ {
        (Some(0), None)
    } else if name == "InputA"@ || name == "bInputA"@ {
        (Some(0), None)
    } else if name == "InputB"@ || name == "bInputB"@ {
        (Some(1), None)
    } else if name == "Blend"@ {
        (Some(2), None)
    } else if name == "Value"@ {
        (None, Some(0))
    } else if name == "bPulseOnRisingEdge"@ {
        (None, Some(0))
    } else if name == "bPulseOnFallingEdge"@ {
        (None, Some(1))
    } else {
        (None, None)
    }
}

/// Properties that each hold a value of a named type, as plain values.
pub open spec fn typed_view(p: Seq<(Seq<char>, Seq<char>)>) -> Seq<(Seq<char>, PropView)> {
    p.map_values(|e: (Seq<char>, Seq<char>)| (e.0, PropView::Type(e.1)))
}

/// The properties of the data struct a gate is saved with: each name with
/// the type it holds, in order.
pub open spec fn gate_prop_types(g: LogicGate) -> Seq<(Seq<char>, Seq<char>)> {
    match g {
        LogicGate::BoolAnd | LogicGate::BoolOr | LogicGate::BoolXor | LogicGate::BoolNand
        | LogicGate::BoolNor => seq![("bInputA"@, "bool"@), ("bInputB"@, "bool"@)],
        LogicGate::BoolNot => seq![("bInput"@, "bool"@)],
        LogicGate::BitAnd | LogicGate::BitOr | LogicGate::BitXor | LogicGate::BitNand | LogicGate::BitNor
        | LogicGate::BitShiftLeft | LogicGate::BitShiftRight => seq![("InputA"@, "i64"@), ("InputB"@, "i64"@)],
        LogicGate::BitNot => seq![("Input"@, "i64"@)],
        LogicGate::Add | LogicGate::Sub | LogicGate::Mul | LogicGate::ModFloored | LogicGate::Mod
        | LogicGate::Div | LogicGate::Lt | LogicGate::Leq | LogicGate::Gt
        | LogicGate::Geq => seq![("InputA"@, "WireGraphPrimMathVariant"@), ("InputB"@, "WireGraphPrimMathVariant"@)],
        LogicGate::Ceil | LogicGate::Floor => seq![("Input"@, "f64"@)],
        LogicGate::Eq | LogicGate::Neq => seq![("InputA"@, "WireGraphVariant"@), ("InputB"@, "WireGraphVariant"@)],
        LogicGate::Blend => seq![
            ("InputA"@, "WireGraphVariant"@),
            ("InputB"@, "WireGraphVariant"@),
            ("Blend"@, "f64"@),
        ],
        LogicGate::Const => seq![("Value"@, "WireGraphVariant"@)],
        LogicGate::EdgeDetector => seq![
            ("Input"@, "f64"@),
            ("bPulseOnRisingEdge"@, "bool"@),
            ("bPulseOnFallingEdge"@, "bool"@),
        ],
    }
}

/// The schema a gate's data is written with: no enum, no variant, and its
/// one data struct.
pub open spec fn gate_schema(g: LogicGate) -> MetaView {
    (seq![], seq![], seq![(gate_struct_name(g), typed_view(gate_prop_types(g)))])
}

fn typed_props(ps: &[(&str, &str)]) -> (v: Vec<(String, BrdbStructPropRaw)>)
    ensures
        props_view(v@) == typed_view(ps@.map_values(|p: (&str, &str)| (p.0@, p.1@))),
{
    let mut v: Vec<(String, BrdbStructPropRaw)> = Vec::new();
    let mut i: usize = 0;
    while i < ps.len()
        invariant
            0 <= i <= ps@.len(),
            props_view(v@) == typed_view(ps@.take(i as int).map_values(|p: (&str, &str)| (p.0@, p.1@))),
        decreases ps@.len() - i,
    {
        let ghost before = v@;
        let (n, t) = ps[i];
        let e = (n.to_owned(), BrdbStructPropRaw::Type(t.to_owned()));
        v.push(e);
        assert(props_view(v@) =~= props_view(before).push((n@, PropView::Type(t@))));
        assert(ps@.take(i + 1).map_values(|p: (&str, &str)| (p.0@, p.1@)) =~= ps@.take(i as int).map_values(
            |p: (&str, &str)| (p.0@, p.1@),
        ).push((n@, t@)));
        i = i + 1;
    }
    assert(ps@.take(ps@.len() as int) =~= ps@);
    v
}

fn names_vec(names: &[&str]) -> (v: Vec<BString>)
    ensures
        names_view(v@) == names@.map_values(|s: &str| s@),
{
    let mut v: Vec<BString> = Vec::new();
    let mut i: usize = 0;
    while i < names.len()
        invariant
            0 <= i <= names@.len(),
            names_view(v@) == names@.take(i as int).map_values(|s: &str| s@),
        decreases names@.len() - i,
    {
        let ghost before = v@;
        let b = BString::str(names[i]);
        v.push(b);
        assert(names_view(v@) =~= names_view(before).push(b@));
        assert(names@.take(i + 1).map_values(|s: &str| s@) =~= names@.take(i as int).map_values(
            |s: &str| s@,
        ).push(names@[i as int]@));
        i = i + 1;
    }
    assert(names@.take(names@.len() as int) =~= names@);
    v
}

impl LogicGate {
    /// The component type this gate is saved as.
    pub fn component_name(&self) -> (r: BString)
        ensures
            r@ == gate_component_name(*self),
    {
        match self {
            LogicGate::BoolAnd => BString::str("BrickComponentType_WireGraph_Expr_LogicalAND"),
            LogicGate::BoolOr => BString::str("BrickComponentType_WireGraph_Expr_LogicalOR"),
            LogicGate::BoolXor => BString::str("BrickComponentType_WireGraph_Expr_LogicalXOR"),
            LogicGate::BoolNand => BString::str("BrickComponentType_WireGraph_Expr_LogicalNAND"),
            LogicGate::BoolNor => BString::str("BrickComponentType_WireGraph_Expr_LogicalNOR"),
            LogicGate::BoolNot => BString::str("BrickComponentType_WireGraph_Expr_LogicalNOT"),
            LogicGate::BitAnd => BString::str("BrickComponentType_WireGraph_Expr_BitwiseAND"),
            LogicGate::BitOr => BString::str("BrickComponentType_WireGraph_Expr_BitwiseOR"),
            LogicGate::BitXor => BString::str("BrickComponentType_WireGraph_Expr_BitwiseXOR"),
            LogicGate::BitNand => BString::str("BrickComponentType_WireGraph_Expr_BitwiseNAND"),
            LogicGate::BitNor => BString::str("BrickComponentType_WireGraph_Expr_BitwiseNOR"),
            LogicGate::BitNot => BString::str("BrickComponentType_WireGraph_Expr_BitwiseNOT"),
            LogicGate::BitShiftLeft => BString::str("BrickComponentType_WireGraph_Expr_BitwiseShiftLeft"),
            LogicGate::BitShiftRight => BString::str("BrickComponentType_WireGraph_Expr_BitwiseShiftRight"),
            LogicGate::Add => BString::str("BrickComponentType_WireGraph_Expr_MathAdd"),
            LogicGate::Sub => BString::str("BrickComponentType_WireGraph_Expr_MathSubtract"),
            LogicGate::Mul => BString::str("BrickComponentType_WireGraph_Expr_MathMultiply"),
            LogicGate::ModFloored => BString::str("BrickComponentType_WireGraph_Expr_MathModuloFloored"),
            LogicGate::Mod => BString::str("BrickComponentType_WireGraph_Expr_MathModulo"),
            LogicGate::Div => BString::str("BrickComponentType_WireGraph_Expr_MathDivide"),
            LogicGate::Ceil => BString::str("BrickComponentType_WireGraph_Expr_Ceil"),
            LogicGate::Floor => BString::str("BrickComponentType_WireGraph_Expr_Floor"),
            LogicGate::Blend => BString::str("BrickComponentType_WireGraph_Expr_MathBlend"),
            LogicGate::Eq => BString::str("BrickComponentType_WireGraph_Expr_CompareEqual"),
            LogicGate::Neq => BString::str("BrickComponentType_WireGraph_Expr_CompareNotEqual"),
            LogicGate::Lt => BString::str("BrickComponentType_WireGraph_Expr_CompareLess"),
            LogicGate::Leq => BString::str("BrickComponentType_WireGraph_Expr_CompareLessOrEqual"),
            LogicGate::Gt => BString::str("BrickComponentType_WireGraph_Expr_CompareGreater"),
            LogicGate::Geq => BString::str("BrickComponentType_WireGraph_Expr_CompareGreaterOrEqual"),
            LogicGate::Const => BString::str("BrickComponentType_WireGraphPseudo_Const"),
            LogicGate::EdgeDetector => BString::str("BrickComponent_WireGraph_Expr_EdgeDetector"),
        }
    }

    /// Whether this gate takes boolean inputs.
    pub fn is_bool_input(&self) -> (r: bool)
        ensures
            r == gate_is_bool(*self),
    {
        match self {
            LogicGate::BoolAnd | LogicGate::BoolOr | LogicGate::BoolXor | LogicGate::BoolNand | LogicGate::BoolNor | LogicGate::BoolNot => true,
            _ => false,
        }
    }

    /// Whether this gate gives a boolean output.
    pub fn is_bool_output(&self) -> (r: bool)
        ensures
            r == gate_is_bool(*self),
    {
        match self {
            LogicGate::BoolAnd | LogicGate::BoolOr | LogicGate::BoolXor | LogicGate::BoolNand | LogicGate::BoolNor | LogicGate::BoolNot => true,
            _ => false,
        }
    }

    /// The data struct this gate is saved with.
    pub fn struct_name(&self) -> (r: BString)
        ensures
            r@ == gate_struct_name(*self),
    {
        match self {
            LogicGate::BoolAnd => BString::str("BrickComponentData_WireGraph_Expr_BoolBool_Bool"),
            LogicGate::BoolOr => BString::str("BrickComponentData_WireGraph_Expr_BoolBool_Bool"),
            LogicGate::BoolXor => BString::str("BrickComponentData_WireGraph_Expr_BoolBool_Bool"),
            LogicGate::BoolNand => BString::str("BrickComponentData_WireGraph_Expr_BoolBool_Bool"),
            LogicGate::BoolNor => BString::str("BrickComponentData_WireGraph_Expr_BoolBool_Bool"),
            LogicGate::BoolNot => BString::str("BrickComponentData_WireGraph_Expr_Bool_Bool"),
            LogicGate::BitAnd => BString::str("BrickComponentData_WireGraph_Expr_IntInt_Int"),
            LogicGate::BitOr => BString::str("BrickComponentData_WireGraph_Expr_IntInt_Int"),
            LogicGate::BitXor => BString::str("BrickComponentData_WireGraph_Expr_IntInt_Int"),
            LogicGate::BitNand => BString::str("BrickComponentData_WireGraph_Expr_IntInt_Int"),
            LogicGate::BitNor => BString::str("BrickComponentData_WireGraph_Expr_IntInt_Int"),
            LogicGate::BitNot => BString::str("BrickComponentData_WireGraph_Expr_Int_Int"),
            LogicGate::BitShiftLeft => BString::str("BrickComponentData_WireGraph_Expr_IntInt_Int"),
            LogicGate::BitShiftRight => BString::str("BrickComponentData_WireGraph_Expr_IntInt_Int"),
            LogicGate::Add => BString::str("BrickComponentData_WireGraph_Expr_PrimMathVariantPrimMathVariant_PrimMathVariant"),
            LogicGate::Sub => BString::str("BrickComponentData_WireGraph_Expr_PrimMathVariantPrimMathVariant_PrimMathVariant"),
            LogicGate::Mul => BString::str("BrickComponentData_WireGraph_Expr_PrimMathVariantPrimMathVariant_PrimMathVariant"),
            LogicGate::ModFloored => BString::str("BrickComponentData_WireGraph_Expr_PrimMathVariantPrimMathVariant_PrimMathVariant"),
            LogicGate::Mod => BString::str("BrickComponentData_WireGraph_Expr_PrimMathVariantPrimMathVariant_PrimMathVariant"),
            LogicGate::Div => BString::str("BrickComponentData_WireGraph_Expr_PrimMathVariantPrimMathVariant_PrimMathVariant"),
            LogicGate::Ceil => BString::str("BrickComponentData_WireGraph_Expr_Float_Float"),
            LogicGate::Floor => BString::str("BrickComponentData_WireGraph_Expr_Float_Float"),
            LogicGate::Blend => BString::str("BrickComponentData_WireGraph_Expr_MathBlend"),
            LogicGate::Eq => BString::str("BrickComponentData_WireGraph_Expr_Compare"),
            LogicGate::Neq => BString::str("BrickComponentData_WireGraph_Expr_Compare"),
            LogicGate::Lt => BString::str("BrickComponentData_WireGraph_Expr_MathCompare"),
            LogicGate::Leq => BString::str("BrickComponentData_WireGraph_Expr_MathCompare"),
            LogicGate::Gt => BString::str("BrickComponentData_WireGraph_Expr_MathCompare"),
            LogicGate::Geq => BString::str("BrickComponentData_WireGraph_Expr_MathCompare"),
            LogicGate::Const => BString::str("BrickComponentData_WireGraphPseudo_Const"),
            LogicGate::EdgeDetector => BString::str("BrickComponentData_WireGraph_Expr_EdgeDetector"),
        }
    }

    /// The schema this gate's data is written with: its data struct and the
    /// type of each property.
    pub fn schema(&self) -> (r: (Vec<BrdbSchemaMetaEnum>, Vec<BrdbSchemaMetaVariant>, Vec<BrdbSchemaMetaStruct>))
        ensures
            meta_view(r) == gate_schema(*self),
    {
        let ps: &[(&str, &str)] = match self {
            LogicGate::BoolAnd | LogicGate::BoolOr | LogicGate::BoolXor | LogicGate::BoolNand
            | LogicGate::BoolNor => &[("bInputA", "bool"), ("bInputB", "bool")],
            LogicGate::BoolNot => &[("bInput", "bool")],
            LogicGate::BitAnd | LogicGate::BitOr | LogicGate::BitXor | LogicGate::BitNand | LogicGate::BitNor
            | LogicGate::BitShiftLeft | LogicGate::BitShiftRight => &[("InputA", "i64"), ("InputB", "i64")],
            LogicGate::BitNot => &[("Input", "i64")],
            LogicGate::Add | LogicGate::Sub | LogicGate::Mul | LogicGate::ModFloored | LogicGate::Mod
            | LogicGate::Div | LogicGate::Lt | LogicGate::Leq | LogicGate::Gt
            | LogicGate::Geq => &[("InputA", "WireGraphPrimMathVariant"), ("InputB", "WireGraphPrimMathVariant")],
            LogicGate::Ceil | LogicGate::Floor => &[("Input", "f64")],
            LogicGate::Eq | LogicGate::Neq => &[("InputA", "WireGraphVariant"), ("InputB", "WireGraphVariant")],
            LogicGate::Blend => &[("InputA", "WireGraphVariant"), ("InputB", "WireGraphVariant"), ("Blend", "f64")],
            LogicGate::Const => &[("Value", "WireGraphVariant")],
            LogicGate::EdgeDetector => &[
                ("Input", "f64"),
                ("bPulseOnRisingEdge", "bool"),
                ("bPulseOnFallingEdge", "bool"),
            ],
        };
        let props = typed_props(ps);
        assert(ps@.map_values(|p: (&str, &str)| (p.0@, p.1@)) =~= gate_prop_types(*self));
        let name = self.struct_name();
        let st: BrdbSchemaMetaStruct = (name.as_str().to_owned(), props);
        let mut structs: Vec<BrdbSchemaMetaStruct> = Vec::new();
        structs.push(st);
        let r = (Vec::new(), Vec::new(), structs);
        assert(meta_view(r).0 =~= seq![]);
        assert(meta_view(r).1 =~= seq![]);
        assert(meta_view(r).2 =~= seq![(gate_struct_name(*self), typed_view(gate_prop_types(*self)))]);
        r
    }

    /// The wire ports of this gate, in order.
    pub fn wire_port_names(&self) -> (r: Vec<BString>)
        ensures
            names_view(r@) == gate_port_names(*self),
    {
        let names: &[&str] = match self {
            LogicGate::BoolAnd => &["bInputA", "bInputB", "bOutput"],
            LogicGate::BoolOr => &["bInputA", "bInputB", "bOutput"],
            LogicGate::BoolXor => &["bInputA", "bInputB", "bOutput"],
            LogicGate::BoolNand => &["bInputA", "bInputB", "bOutput"],
            LogicGate::BoolNor => &["bInputA", "bInputB", "bOutput"],
            LogicGate::BoolNot => &["bInput", "bOutput"],
            LogicGate::BitAnd => &["InputA", "InputB", "Output"],
            LogicGate::BitOr => &["InputA", "InputB", "Output"],
            LogicGate::BitXor => &["InputA", "InputB", "Output"],
            LogicGate::BitNand => &["InputA", "InputB", "Output"],
            LogicGate::BitNor => &["InputA", "InputB", "Output"],
            LogicGate::BitNot => &["Input", "Output"],
            LogicGate::BitShiftLeft => &["InputA", "InputB", "Output"],
            LogicGate::BitShiftRight => &["InputA", "InputB", "Output"],
            LogicGate::Add => &["InputA", "InputB", "Output"],
            LogicGate::Sub => &["InputA", "InputB", "Output"],
            LogicGate::Mul => &["InputA", "InputB", "Output"],
            LogicGate::ModFloored => &["InputA", "InputB", "Output"],
            LogicGate::Mod => &["InputA", "InputB", "Output"],
            LogicGate::Div => &["InputA", "InputB", "Output"],
            LogicGate::Ceil => &["Input", "Output"],
            LogicGate::Floor => &["Input", "Output"],
            LogicGate::Blend => &["Blend", "InputA", "InputB", "Output"],
            LogicGate::Eq => &["InputA", "InputB", "bOutput"],
            LogicGate::Neq => &["InputA", "InputB", "bOutput"],
            LogicGate::Lt => &["InputA", "InputB", "bOutput"],
            LogicGate::Leq => &["InputA", "InputB", "bOutput"],
            LogicGate::Gt => &["InputA", "InputB", "bOutput"],
            LogicGate::Geq => &["InputA", "InputB", "bOutput"],
            LogicGate::Const => &["Value"],
            LogicGate::EdgeDetector => &["Input", "bPulseOnRisingEdge", "bPulseOnFallingEdge"],
        };
        let v = names_vec(names);
        assert(names_view(v@) =~= gate_port_names(*self));
        v
    }

    /// Where the data of the port named `name` lies: the index among the
    /// inputs, or among the outputs.
    pub fn data_index(&self, name: &str) -> (r: (Option<usize>, Option<usize>))
        ensures
            r == port_data_index(name@),
    {
        if str_eq(name, "Input") || str_eq(name, "bInput") {
            (Some(0), None)
        } else if str_eq(name, "InputA") || str_eq(name, "bInputA") {
            (Some(0), None)
        } else if str_eq(name, "InputB") || str_eq(name, "bInputB") {
            (Some(1), None)
        } else if str_eq(name, "Blend") {
            (Some(2), None)
        } else if str_eq(name, "Value") {
            (None, Some(0))
        } else if str_eq(name, "bPulseOnRisingEdge") {
            (None, Some(0))
        } else if str_eq(name, "bPulseOnFallingEdge") {
            (None, Some(1))
        } else {
            (None, None)
        }
    }

    /// How many inputs this gate takes.
    pub fn num_inputs(&self) -> (r: usize)
        ensures
            r == gate_num_inputs(*self),
    {
        match self {
            LogicGate::BoolAnd => 2,
            LogicGate::BoolOr => 2,
            LogicGate::BoolXor => 2,
            LogicGate::BoolNand => 2,
            LogicGate::BoolNor => 2,
            LogicGate::BoolNot => 1,
            LogicGate::BitAnd => 2,
            LogicGate::BitOr => 2,
            LogicGate::BitXor => 2,
            LogicGate::BitNand => 2,
            LogicGate::BitNor => 2,
            LogicGate::BitNot => 1,
            LogicGate::BitShiftLeft => 2,
            LogicGate::BitShiftRight => 2,
            LogicGate::Add => 2,
            LogicGate::Sub => 2,
            LogicGate::Mul => 2,
            LogicGate::ModFloored => 2,
            LogicGate::Mod => 2,
            LogicGate::Div => 2,
            LogicGate::Ceil => 1,
            LogicGate::Floor => 1,
            LogicGate::Blend => 2,
            LogicGate::Eq => 2,
            LogicGate::Neq => 2,
            LogicGate::Lt => 2,
            LogicGate::Leq => 2,
            LogicGate::Gt => 2,
            LogicGate::Geq => 2,
            LogicGate::Const => 0,
            LogicGate::EdgeDetector => 2,
        }
    }

    /// The single input port of this gate on the brick `brick_id`.
    pub fn input_of(&self, brick_id: usize) -> (r: WirePort)
        ensures
            r.brick_id == brick_id,
            r.component_type@ == gate_component_name(*self),
            r.port_name@ == if gate_is_bool(*self) { "bInput"@ } else { "Input"@ },
    {
        WirePort {
            brick_id,
            component_type: self.component_name(),
            port_name: if self.is_bool_input() { BString::str("bInput") } else { BString::str("Input") },
        }
    }

    /// The first input port of this gate on the brick `brick_id`.
    pub fn input_a_of(&self, brick_id: usize) -> (r: WirePort)
        ensures
            r.brick_id == brick_id,
            r.component_type@ == gate_component_name(*self),
            r.port_name@ == if gate_is_bool(*self) { "bInputA"@ } else { "InputA"@ },
    {
        WirePort {
            brick_id,
            component_type: self.component_name(),
            port_name: if self.is_bool_input() { BString::str("bInputA") } else { BString::str("InputA") },
        }
    }

    /// The second input port of this gate on the brick `brick_id`.
    pub fn input_b_of(&self, brick_id: usize) -> (r: WirePort)
        ensures
            r.brick_id == brick_id,
            r.component_type@ == gate_component_name(*self),
            r.port_name@ == if gate_is_bool(*self) { "bInputB"@ } else { "InputB"@ },
    {
        WirePort {
            brick_id,
            component_type: self.component_name(),
            port_name: if self.is_bool_input() { BString::str("bInputB") } else { BString::str("InputB") },
        }
    }

    /// The blend input port of this gate on the brick `brick_id`.
    pub fn input_blend_of(&self, brick_id: usize) -> (r: WirePort)
        ensures
            r.brick_id == brick_id,
            r.component_type@ == gate_component_name(*self),
            r.port_name@ == "Blend"@,
    {
        WirePort {
            brick_id,
            component_type: self.component_name(),
            port_name: BString::str("Blend"),
        }
    }

    /// The output port of this gate on the brick `brick_id`.
    pub fn output_of(&self, brick_id: usize) -> (r: WirePort)
        ensures
            r.brick_id == brick_id,
            r.component_type@ == gate_component_name(*self),
            r.port_name@ == if gate_is_bool(*self) { "bOutput"@ } else { "Output"@ },
    {
        WirePort {
            brick_id,
            component_type: self.component_name(),
            port_name: if self.is_bool_output() { BString::str("bOutput") } else { BString::str("Output") },
        }
    }

    /// The rising edge port of this gate on the brick `brick_id`.
    pub fn rising_edge_of(&self, brick_id: usize) -> (r: WirePort)
        ensures
            r.brick_id == brick_id,
            r.component_type@ == gate_component_name(*self),
            r.port_name@ == "bPulseOnRisingEdge"@,
    {
        WirePort {
            brick_id,
            component_type: self.component_name(),
            port_name: BString::str("bPulseOnRisingEdge"),
        }
    }

    /// The falling edge port of this gate on the brick `brick_id`.
    pub fn falling_edge_of(&self, brick_id: usize) -> (r: WirePort)
        ensures
            r.brick_id == brick_id,
            r.component_type@ == gate_component_name(*self),
            r.port_name@ == "bPulseOnFallingEdge"@,
    {
        WirePort {
            brick_id,
            component_type: self.component_name(),
            port_name: BString::str("bPulseOnFallingEdge"),
        }
    }

    /// The brick that carries this gate.
    pub fn brick(self) -> (r: BrickType)
        ensures
            r matches BrickType::Basic(a) && a@ == gate_brick(self),
    {
        match self {
            LogicGate::BoolAnd => BrickType::str("B_1x1_Gate_AND"),
            LogicGate::BoolOr => BrickType::str("B_1x1_Gate_OR"),
            LogicGate::BoolXor => BrickType::str("B_1x1_Gate_XOR"),
            LogicGate::BoolNand => BrickType::str("B_1x1_Gate_NAND"),
            LogicGate::BoolNor => BrickType::str("B_1x1_Gate_NOR"),
            LogicGate::BoolNot => BrickType::str("B_1x1_NOT_Gate"),
            LogicGate::BitAnd => BrickType::str("B_1x1_Gate_AND_Bitwise"),
            LogicGate::BitOr => BrickType::str("B_1x1_Gate_OR_Bitwise"),
            LogicGate::BitXor => BrickType::str("B_1x1_Gate_XOR_Bitwise"),
            LogicGate::BitNand => BrickType::str("B_1x1_Gate_NAND_Bitwise"),
            LogicGate::BitNor => BrickType::str("B_1x1_Gate_NOR_Bitwise"),
            LogicGate::BitNot => BrickType::str("B_1x1_Gate_NOT_Bitwise"),
            LogicGate::BitShiftLeft => BrickType::str("B_1x1_Gate_ShiftLeft_Bitwise"),
            LogicGate::BitShiftRight => BrickType::str("B_1x1_Gate_ShiftRight_Bitwise"),
            LogicGate::Add => BrickType::str("B_1x1_Gate_Add"),
            LogicGate::Sub => BrickType::str("B_1x1_Gate_Subtract"),
            LogicGate::Mul => BrickType::str("B_1x1_Gate_Multiply"),
            LogicGate::ModFloored => BrickType::str("B_1x1_Gate_ModFloored"),
            LogicGate::Mod => BrickType::str("B_1x1_Gate_Mod"),
            LogicGate::Div => BrickType::str("B_1x1_Gate_Divide"),
            LogicGate::Ceil => BrickType::str("B_1x1_Gate_Ceiling"),
            LogicGate::Floor => BrickType::str("B_1x1_Gate_Floor"),
            LogicGate::Blend => BrickType::str("B_1x1_Gate_Blend"),
            LogicGate::Eq => BrickType::str("B_1x1_Gate_Equal"),
            LogicGate::Neq => BrickType::str("B_1x1_Gate_NotEqual"),
            LogicGate::Lt => BrickType::str("B_1x1_Gate_LessThan"),
            LogicGate::Leq => BrickType::str("B_1x1_Gate_LessThanEqual"),
            LogicGate::Gt => BrickType::str("B_1x1_Gate_GreaterThan"),
            LogicGate::Geq => BrickType::str("B_1x1_Gate_GreaterThanEqual"),
            LogicGate::Const => BrickType::str("B_1x1_Gate_Constant"),
            LogicGate::EdgeDetector => BrickType::str("B_1x1_Gate_EdgeDetector"),
        }
    }
}

/// The operation a gate performs, as a word that both its component type
/// and the brick that carries it name.
pub open spec fn gate_operation(g: LogicGate) -> Seq<char> {
    match g {
        LogicGate::BoolAnd => "AND"@,
        LogicGate::BoolOr => "OR"@,
        LogicGate::BoolXor => "XOR"@,
        LogicGate::BoolNand => "NAND"@,
        LogicGate::BoolNor => "NOR"@,
        LogicGate::BoolNot => "NOT"@,
        LogicGate::BitAnd => "AND"@,
        LogicGate::BitOr => "OR"@,
        LogicGate::BitXor => "XOR"@,
        LogicGate::BitNand => "NAND"@,
        LogicGate::BitNor => "NOR"@,
        LogicGate::BitNot => "NOT"@,
        LogicGate::BitShiftLeft => "ShiftLeft"@,
        LogicGate::BitShiftRight => "ShiftRight"@,
        LogicGate::Add => "Add"@,
        LogicGate::Sub => "Subtract"@,
        LogicGate::Mul => "Multiply"@,
        LogicGate::ModFloored => "Floored"@,
        LogicGate::Mod => "Mod"@,
        LogicGate::Div => "Divide"@,
        LogicGate::Ceil => "Ceil"@,
        LogicGate::Floor => "Floor"@,
        LogicGate::Blend => "Blend"@,
        LogicGate::Eq => "Equal"@,
        LogicGate::Neq => "NotEqual"@,
        LogicGate::Lt => "Less"@,
        LogicGate::Leq => "Less"@,
        LogicGate::Gt => "Greater"@,
        LogicGate::Geq => "Greater"@,
        LogicGate::Const => "Const"@,
        LogicGate::EdgeDetector => "EdgeDetector"@,
    }
}

/// Characters by which the component types of gates differ from one
/// another: the length, and the tenth, third and last characters from the
/// end.
pub open spec fn component_key(n: Seq<char>) -> (nat, char, char, char) {
    (n.len(), n[n.len() - 10], n[n.len() - 3], n[n.len() - 1])
}

/// Characters by which gate bricks differ from one another: the length,
/// the ninth and second last characters, and character 11.
pub open spec fn brick_key(n: Seq<char>) -> (nat, char, char, char) {
    (n.len(), n[n.len() - 9], n[n.len() - 2], n[11])
}

spec fn component_key_of(g: LogicGate) -> (nat, char, char, char) {
    match g {
        LogicGate::BoolAnd => (44nat, 'L', 'A', 'D'),
        LogicGate::BoolOr => (43nat, '_', 'l', 'R'),
        LogicGate::BoolXor => (44nat, 'L', 'X', 'R'),
        LogicGate::BoolNand => (45nat, 'o', 'A', 'D'),
        LogicGate::BoolNor => (44nat, 'L', 'N', 'R'),
        LogicGate::BoolNot => (44nat, 'L', 'N', 'T'),
        LogicGate::BitAnd => (44nat, 'B', 'A', 'D'),
        LogicGate::BitOr => (43nat, '_', 'e', 'R'),
        LogicGate::BitXor => (44nat, 'B', 'X', 'R'),
        LogicGate::BitNand => (45nat, 'i', 'A', 'D'),
        LogicGate::BitNor => (44nat, 'B', 'N', 'R'),
        LogicGate::BitNot => (44nat, 'B', 'N', 'T'),
        LogicGate::BitShiftLeft => (50nat, 'e', 'e', 't'),
        LogicGate::BitShiftRight => (51nat, 'S', 'g', 't'),
        LogicGate::Add => (41nat, 'p', 'A', 'd'),
        LogicGate::Sub => (46nat, 't', 'a', 't'),
        LogicGate::Mul => (46nat, 't', 'p', 'y'),
        LogicGate::ModFloored => (51nat, 'u', 'r', 'd'),
        LogicGate::Mod => (44nat, 'M', 'u', 'o'),
        LogicGate::Div => (44nat, 'M', 'i', 'e'),
        LogicGate::Ceil => (38nat, '_', 'e', 'l'),
        LogicGate::Floor => (39nat, 'E', 'o', 'r'),
        LogicGate::Blend => (43nat, '_', 'e', 'd'),
        LogicGate::Eq => (46nat, 'm', 'u', 'l'),
        LogicGate::Neq => (49nat, 'r', 'u', 'l'),
        LogicGate::Lt => (45nat, 'o', 'e', 's'),
        LogicGate::Leq => (52nat, 'e', 'u', 'l'),
        LogicGate::Gt => (48nat, 'a', 't', 'r'),
        LogicGate::Geq => (55nat, 't', 'u', 'l'),
        LogicGate::Const => (40nat, 'e', 'n', 't'),
        LogicGate::EdgeDetector => (42nat, 'g', 't', 'r'),
    }
}

spec fn brick_key_of(g: LogicGate) -> (nat, char, char, char) {
    match g {
        LogicGate::BoolAnd => (14nat, '_', 'N', 'A'),
        LogicGate::BoolOr => (13nat, '1', 'O', 'O'),
        LogicGate::BoolXor => (14nat, '_', 'O', 'X'),
        LogicGate::BoolNand => (15nat, 'G', 'N', 'N'),
        LogicGate::BoolNor => (14nat, '_', 'O', 'N'),
        LogicGate::BoolNot => (14nat, '_', 't', 'a'),
        LogicGate::BitAnd => (22nat, 'D', 's', 'A'),
        LogicGate::BitOr => (21nat, 'R', 's', 'O'),
        LogicGate::BitXor => (22nat, 'R', 's', 'X'),
        LogicGate::BitNand => (23nat, 'D', 's', 'N'),
        LogicGate::BitNor => (22nat, 'R', 's', 'N'),
        LogicGate::BitNot => (22nat, 'T', 's', 'N'),
        LogicGate::BitShiftLeft => (28nat, 't', 's', 'S'),
        LogicGate::BitShiftRight => (29nat, 't', 's', 'S'),
        LogicGate::Add => (14nat, '_', 'd', 'A'),
        LogicGate::Sub => (19nat, '_', 'c', 'S'),
        LogicGate::Mul => (19nat, '_', 'l', 'M'),
        LogicGate::ModFloored => (21nat, 'o', 'e', 'M'),
        LogicGate::Mod => (14nat, '_', 'o', 'M'),
        LogicGate::Div => (17nat, 't', 'd', 'D'),
        LogicGate::Ceil => (18nat, 'e', 'n', 'C'),
        LogicGate::Floor => (16nat, 'a', 'o', 'F'),
        LogicGate::Blend => (16nat, 'a', 'n', 'B'),
        LogicGate::Eq => (16nat, 'a', 'a', 'E'),
        LogicGate::Neq => (19nat, '_', 'a', 'N'),
        LogicGate::Lt => (19nat, '_', 'a', 'L'),
        LogicGate::Leq => (24nat, 'T', 'a', 'L'),
        LogicGate::Gt => (22nat, 'e', 'a', 'G'),
        LogicGate::Geq => (27nat, 'T', 'a', 'G'),
        LogicGate::Const => (19nat, '_', 'n', 'C'),
        LogicGate::EdgeDetector => (23nat, 'e', 'o', 'E'),
    }
}

proof fn lemma_gate_keys(g: LogicGate)
    ensures
        component_key(gate_component_name(g)) == component_key_of(g),
        brick_key(gate_brick(g)) == brick_key_of(g),
{
    match g {
        LogicGate::BoolAnd => {
            reveal_strlit("BrickComponentType_WireGraph_Expr_LogicalAND");
            reveal_strlit("B_1x1_Gate_AND");
        },
        LogicGate::BoolOr => {
            reveal_strlit("BrickComponentType_WireGraph_Expr_LogicalOR");
            reveal_strlit("B_1x1_Gate_OR");
        },
        LogicGate::BoolXor => {
            reveal_strlit("BrickComponentType_WireGraph_Expr_LogicalXOR");
            reveal_strlit("B_1x1_Gate_XOR");
        },
        LogicGate::BoolNand => {
            reveal_strlit("BrickComponentType_WireGraph_Expr_LogicalNAND");
            reveal_strlit("B_1x1_Gate_NAND");
        },
        LogicGate::BoolNor => {
            reveal_strlit("BrickComponentType_WireGraph_Expr_LogicalNOR");
            reveal_strlit("B_1x1_Gate_NOR");
        },
        LogicGate::BoolNot => {
            reveal_strlit("BrickComponentType_WireGraph_Expr_LogicalNOT");
            reveal_strlit("B_1x1_NOT_Gate");
        },
        LogicGate::BitAnd => {
            reveal_strlit("BrickComponentType_WireGraph_Expr_BitwiseAND");
            reveal_strlit("B_1x1_Gate_AND_Bitwise");
        },
        LogicGate::BitOr => {
            reveal_strlit("BrickComponentType_WireGraph_Expr_BitwiseOR");
            reveal_strlit("B_1x1_Gate_OR_Bitwise");
        },
        LogicGate::BitXor => {
            reveal_strlit("BrickComponentType_WireGraph_Expr_BitwiseXOR");
            reveal_strlit("B_1x1_Gate_XOR_Bitwise");
        },
        LogicGate::BitNand => {
            reveal_strlit("BrickComponentType_WireGraph_Expr_BitwiseNAND");
            reveal_strlit("B_1x1_Gate_NAND_Bitwise");
        },
        LogicGate::BitNor => {
            reveal_strlit("BrickComponentType_WireGraph_Expr_BitwiseNOR");
            reveal_strlit("B_1x1_Gate_NOR_Bitwise");
        },
        LogicGate::BitNot => {
            reveal_strlit("BrickComponentType_WireGraph_Expr_BitwiseNOT");
            reveal_strlit("B_1x1_Gate_NOT_Bitwise");
        },
        LogicGate::BitShiftLeft => {
            reveal_strlit("BrickComponentType_WireGraph_Expr_BitwiseShiftLeft");
            reveal_strlit("B_1x1_Gate_ShiftLeft_Bitwise");
        },
        LogicGate::BitShiftRight => {
            reveal_strlit("BrickComponentType_WireGraph_Expr_BitwiseShiftRight");
            reveal_strlit("B_1x1_Gate_ShiftRight_Bitwise");
        },
        LogicGate::Add => {
            reveal_strlit("BrickComponentType_WireGraph_Expr_MathAdd");
            reveal_strlit("B_1x1_Gate_Add");
        },
        LogicGate::Sub => {
            reveal_strlit("BrickComponentType_WireGraph_Expr_MathSubtract");
            reveal_strlit("B_1x1_Gate_Subtract");
        },
        LogicGate::Mul => {
            reveal_strlit("BrickComponentType_WireGraph_Expr_MathMultiply");
            reveal_strlit("B_1x1_Gate_Multiply");
        },
        LogicGate::ModFloored => {
            reveal_strlit("BrickComponentType_WireGraph_Expr_MathModuloFloored");
            reveal_strlit("B_1x1_Gate_ModFloored");
        },
        LogicGate::Mod => {
            reveal_strlit("BrickComponentType_WireGraph_Expr_MathModulo");
            reveal_strlit("B_1x1_Gate_Mod");
        },
        LogicGate::Div => {
            reveal_strlit("BrickComponentType_WireGraph_Expr_MathDivide");
            reveal_strlit("B_1x1_Gate_Divide");
        },
        LogicGate::Ceil => {
            reveal_strlit("BrickComponentType_WireGraph_Expr_Ceil");
            reveal_strlit("B_1x1_Gate_Ceiling");
        },
        LogicGate::Floor => {
            reveal_strlit("BrickComponentType_WireGraph_Expr_Floor");
            reveal_strlit("B_1x1_Gate_Floor");
        },
        LogicGate::Blend => {
            reveal_strlit("BrickComponentType_WireGraph_Expr_MathBlend");
            reveal_strlit("B_1x1_Gate_Blend");
        },
        LogicGate::Eq => {
            reveal_strlit("BrickComponentType_WireGraph_Expr_CompareEqual");
            reveal_strlit("B_1x1_Gate_Equal");
        },
        LogicGate::Neq => {
            reveal_strlit("BrickComponentType_WireGraph_Expr_CompareNotEqual");
            reveal_strlit("B_1x1_Gate_NotEqual");
        },
        LogicGate::Lt => {
            reveal_strlit("BrickComponentType_WireGraph_Expr_CompareLess");
            reveal_strlit("B_1x1_Gate_LessThan");
        },
        LogicGate::Leq => {
            reveal_strlit("BrickComponentType_WireGraph_Expr_CompareLessOrEqual");
            reveal_strlit("B_1x1_Gate_LessThanEqual");
        },
        LogicGate::Gt => {
            reveal_strlit("BrickComponentType_WireGraph_Expr_CompareGreater");
            reveal_strlit("B_1x1_Gate_GreaterThan");
        },
        LogicGate::Geq => {
            reveal_strlit("BrickComponentType_WireGraph_Expr_CompareGreaterOrEqual");
            reveal_strlit("B_1x1_Gate_GreaterThanEqual");
        },
        LogicGate::Const => {
            reveal_strlit("BrickComponentType_WireGraphPseudo_Const");
            reveal_strlit("B_1x1_Gate_Constant");
        },
        LogicGate::EdgeDetector => {
            reveal_strlit("BrickComponent_WireGraph_Expr_EdgeDetector");
            reveal_strlit("B_1x1_Gate_EdgeDetector");
        },
    }
}

/// Distinct gates are saved as distinct component types.
pub proof fn lemma_component_name_injective(g1: LogicGate, g2: LogicGate)
    ensures
        gate_component_name(g1) == gate_component_name(g2) ==> g1 == g2,
{
    lemma_gate_keys(g1);
    lemma_gate_keys(g2);
}

/// Distinct gates are carried by distinct bricks.
pub proof fn lemma_gate_brick_injective(g1: LogicGate, g2: LogicGate)
    ensures
        gate_brick(g1) == gate_brick(g2) ==> g1 == g2,
{
    lemma_gate_keys(g1);
    lemma_gate_keys(g2);
}

/// A gate's component type and the brick that carries it are for the same
/// operation: both name it. The bitwise gates' component types and bricks
/// both say so, and the boolean gates' component types are the logical ones.
pub proof fn lemma_gate_component_matches_brick(g: LogicGate)
    ensures
        contains(gate_component_name(g), gate_operation(g)),
        contains(gate_brick(g), gate_operation(g)),
        (g is BitAnd || g is BitOr || g is BitXor || g is BitNand || g is BitNor || g is BitNot || g is BitShiftLeft
            || g is BitShiftRight) ==> contains(
            gate_component_name(g),
            "Bitwise"@,
        ) && contains(gate_brick(g), "Bitwise"@),
        gate_is_bool(g) ==> contains(gate_component_name(g), "Logical"@),
{
    match g {
        LogicGate::BoolAnd => {
            reveal_strlit("BrickComponentType_WireGraph_Expr_LogicalAND");
            reveal_strlit("B_1x1_Gate_AND");
            reveal_strlit("AND");
            assert("BrickComponentType_WireGraph_Expr_LogicalAND"@.subrange(41, 44) =~= "AND"@);
            assert(occurs_at("BrickComponentType_WireGraph_Expr_LogicalAND"@, "AND"@, 41));
            assert("B_1x1_Gate_AND"@.subrange(11, 14) =~= "AND"@);
            assert(occurs_at("B_1x1_Gate_AND"@, "AND"@, 11));
            reveal_strlit("Logical");
            assert("BrickComponentType_WireGraph_Expr_LogicalAND"@.subrange(34, 41) =~= "Logical"@);
            assert(occurs_at("BrickComponentType_WireGraph_Expr_LogicalAND"@, "Logical"@, 34));
        },
        LogicGate::BoolOr => {
            reveal_strlit("BrickComponentType_WireGraph_Expr_LogicalOR");
            reveal_strlit("B_1x1_Gate_OR");
            reveal_strlit("OR");
            assert("BrickComponentType_WireGraph_Expr_LogicalOR"@.subrange(41, 43) =~= "OR"@);
            assert(occurs_at("BrickComponentType_WireGraph_Expr_LogicalOR"@, "OR"@, 41));
            assert("B_1x1_Gate_OR"@.subrange(11, 13) =~= "OR"@);
            assert(occurs_at("B_1x1_Gate_OR"@, "OR"@, 11));
            reveal_strlit("Logical");
            assert("BrickComponentType_WireGraph_Expr_LogicalOR"@.subrange(34, 41) =~= "Logical"@);
            assert(occurs_at("BrickComponentType_WireGraph_Expr_LogicalOR"@, "Logical"@, 34));
        },
        LogicGate::BoolXor => {
            reveal_strlit("BrickComponentType_WireGraph_Expr_LogicalXOR");
            reveal_strlit("B_1x1_Gate_XOR");
            reveal_strlit("XOR");
            assert("BrickComponentType_WireGraph_Expr_LogicalXOR"@.subrange(41, 44) =~= "XOR"@);
            assert(occurs_at("BrickComponentType_WireGraph_Expr_LogicalXOR"@, "XOR"@, 41));
            assert("B_1x1_Gate_XOR"@.subrange(11, 14) =~= "XOR"@);
            assert(occurs_at("B_1x1_Gate_XOR"@, "XOR"@, 11));
            reveal_strlit("Logical");
            assert("BrickComponentType_WireGraph_Expr_LogicalXOR"@.subrange(34, 41) =~= "Logical"@);
            assert(occurs_at("BrickComponentType_WireGraph_Expr_LogicalXOR"@, "Logical"@, 34));
        },
        LogicGate::BoolNand => {
            reveal_strlit("BrickComponentType_WireGraph_Expr_LogicalNAND");
            reveal_strlit("B_1x1_Gate_NAND");
            reveal_strlit("NAND");
            assert("BrickComponentType_WireGraph_Expr_LogicalNAND"@.subrange(41, 45) =~= "NAND"@);
            assert(occurs_at("BrickComponentType_WireGraph_Expr_LogicalNAND"@, "NAND"@, 41));
            assert("B_1x1_Gate_NAND"@.subrange(11, 15) =~= "NAND"@);
            assert(occurs_at("B_1x1_Gate_NAND"@, "NAND"@, 11));
            reveal_strlit("Logical");
            assert("BrickComponentType_WireGraph_Expr_LogicalNAND"@.subrange(34, 41) =~= "Logical"@);
            assert(occurs_at("BrickComponentType_WireGraph_Expr_LogicalNAND"@, "Logical"@, 34));
        },
        LogicGate::BoolNor => {
            reveal_strlit("BrickComponentType_WireGraph_Expr_LogicalNOR");
            reveal_strlit("B_1x1_Gate_NOR");
            reveal_strlit("NOR");
            assert("BrickComponentType_WireGraph_Expr_LogicalNOR"@.subrange(41, 44) =~= "NOR"@);
            assert(occurs_at("BrickComponentType_WireGraph_Expr_LogicalNOR"@, "NOR"@, 41));
            assert("B_1x1_Gate_NOR"@.subrange(11, 14) =~= "NOR"@);
            assert(occurs_at("B_1x1_Gate_NOR"@, "NOR"@, 11));
            reveal_strlit("Logical");
            assert("BrickComponentType_WireGraph_Expr_LogicalNOR"@.subrange(34, 41) =~= "Logical"@);
            assert(occurs_at("BrickComponentType_WireGraph_Expr_LogicalNOR"@, "Logical"@, 34));
        },
        LogicGate::BoolNot => {
            reveal_strlit("BrickComponentType_WireGraph_Expr_LogicalNOT");
            reveal_strlit("B_1x1_NOT_Gate");
            reveal_strlit("NOT");
            assert("BrickComponentType_WireGraph_Expr_LogicalNOT"@.subrange(41, 44) =~= "NOT"@);
            assert(occurs_at("BrickComponentType_WireGraph_Expr_LogicalNOT"@, "NOT"@, 41));
            assert("B_1x1_NOT_Gate"@.subrange(6, 9) =~= "NOT"@);
            assert(occurs_at("B_1x1_NOT_Gate"@, "NOT"@, 6));
            reveal_strlit("Logical");
            assert("BrickComponentType_WireGraph_Expr_LogicalNOT"@.subrange(34, 41) =~= "Logical"@);
            assert(occurs_at("BrickComponentType_WireGraph_Expr_LogicalNOT"@, "Logical"@, 34));
        },
        LogicGate::BitAnd => {
            reveal_strlit("BrickComponentType_WireGraph_Expr_BitwiseAND");
            reveal_strlit("B_1x1_Gate_AND_Bitwise");
            reveal_strlit("AND");
            assert("BrickComponentType_WireGraph_Expr_BitwiseAND"@.subrange(41, 44) =~= "AND"@);
            assert(occurs_at("BrickComponentType_WireGraph_Expr_BitwiseAND"@, "AND"@, 41));
            assert("B_1x1_Gate_AND_Bitwise"@.subrange(11, 14) =~= "AND"@);
            assert(occurs_at("B_1x1_Gate_AND_Bitwise"@, "AND"@, 11));
            reveal_strlit("Bitwise");
            assert("BrickComponentType_WireGraph_Expr_BitwiseAND"@.subrange(34, 41) =~= "Bitwise"@);
            assert(occurs_at("BrickComponentType_WireGraph_Expr_BitwiseAND"@, "Bitwise"@, 34));
            assert("B_1x1_Gate_AND_Bitwise"@.subrange(15, 22) =~= "Bitwise"@);
            assert(occurs_at("B_1x1_Gate_AND_Bitwise"@, "Bitwise"@, 15));
        },
        LogicGate::BitOr => {
            reveal_strlit("BrickComponentType_WireGraph_Expr_BitwiseOR");
            reveal_strlit("B_1x1_Gate_OR_Bitwise");
            reveal_strlit("OR");
            assert("BrickComponentType_WireGraph_Expr_BitwiseOR"@.subrange(41, 43) =~= "OR"@);
            assert(occurs_at("BrickComponentType_WireGraph_Expr_BitwiseOR"@, "OR"@, 41));
            assert("B_1x1_Gate_OR_Bitwise"@.subrange(11, 13) =~= "OR"@);
            assert(occurs_at("B_1x1_Gate_OR_Bitwise"@, "OR"@, 11));
            reveal_strlit("Bitwise");
            assert("BrickComponentType_WireGraph_Expr_BitwiseOR"@.subrange(34, 41) =~= "Bitwise"@);
            assert(occurs_at("BrickComponentType_WireGraph_Expr_BitwiseOR"@, "Bitwise"@, 34));
            assert("B_1x1_Gate_OR_Bitwise"@.subrange(14, 21) =~= "Bitwise"@);
            assert(occurs_at("B_1x1_Gate_OR_Bitwise"@, "Bitwise"@, 14));
        },
        LogicGate::BitXor => {
            reveal_strlit("BrickComponentType_WireGraph_Expr_BitwiseXOR");
            reveal_strlit("B_1x1_Gate_XOR_Bitwise");
            reveal_strlit("XOR");
            assert("BrickComponentType_WireGraph_Expr_BitwiseXOR"@.subrange(41, 44) =~= "XOR"@);
            assert(occurs_at("BrickComponentType_WireGraph_Expr_BitwiseXOR"@, "XOR"@, 41));
            assert("B_1x1_Gate_XOR_Bitwise"@.subrange(11, 14) =~= "XOR"@);
            assert(occurs_at("B_1x1_Gate_XOR_Bitwise"@, "XOR"@, 11));
            reveal_strlit("Bitwise");
            assert("BrickComponentType_WireGraph_Expr_BitwiseXOR"@.subrange(34, 41) =~= "Bitwise"@);
            assert(occurs_at("BrickComponentType_WireGraph_Expr_BitwiseXOR"@, "Bitwise"@, 34));
            assert("B_1x1_Gate_XOR_Bitwise"@.subrange(15, 22) =~= "Bitwise"@);
            assert(occurs_at("B_1x1_Gate_XOR_Bitwise"@, "Bitwise"@, 15));
        },
        LogicGate::BitNand => {
            reveal_strlit("BrickComponentType_WireGraph_Expr_BitwiseNAND");
            reveal_strlit("B_1x1_Gate_NAND_Bitwise");
            reveal_strlit("NAND");
            assert("BrickComponentType_WireGraph_Expr_BitwiseNAND"@.subrange(41, 45) =~= "NAND"@);
            assert(occurs_at("BrickComponentType_WireGraph_Expr_BitwiseNAND"@, "NAND"@, 41));
            assert("B_1x1_Gate_NAND_Bitwise"@.subrange(11, 15) =~= "NAND"@);
            assert(occurs_at("B_1x1_Gate_NAND_Bitwise"@, "NAND"@, 11));
            reveal_strlit("Bitwise");
            assert("BrickComponentType_WireGraph_Expr_BitwiseNAND"@.subrange(34, 41) =~= "Bitwise"@);
            assert(occurs_at("BrickComponentType_WireGraph_Expr_BitwiseNAND"@, "Bitwise"@, 34));
            assert("B_1x1_Gate_NAND_Bitwise"@.subrange(16, 23) =~= "Bitwise"@);
            assert(occurs_at("B_1x1_Gate_NAND_Bitwise"@, "Bitwise"@, 16));
        },
        LogicGate::BitNor => {
            reveal_strlit("BrickComponentType_WireGraph_Expr_BitwiseNOR");
            reveal_strlit("B_1x1_Gate_NOR_Bitwise");
            reveal_strlit("NOR");
            assert("BrickComponentType_WireGraph_Expr_BitwiseNOR"@.subrange(41, 44) =~= "NOR"@);
            assert(occurs_at("BrickComponentType_WireGraph_Expr_BitwiseNOR"@, "NOR"@, 41));
            assert("B_1x1_Gate_NOR_Bitwise"@.subrange(11, 14) =~= "NOR"@);
            assert(occurs_at("B_1x1_Gate_NOR_Bitwise"@, "NOR"@, 11));
            reveal_strlit("Bitwise");
            assert("BrickComponentType_WireGraph_Expr_BitwiseNOR"@.subrange(34, 41) =~= "Bitwise"@);
            assert(occurs_at("BrickComponentType_WireGraph_Expr_BitwiseNOR"@, "Bitwise"@, 34));
            assert("B_1x1_Gate_NOR_Bitwise"@.subrange(15, 22) =~= "Bitwise"@);
            assert(occurs_at("B_1x1_Gate_NOR_Bitwise"@, "Bitwise"@, 15));
        },
        LogicGate::BitNot => {
            reveal_strlit("BrickComponentType_WireGraph_Expr_BitwiseNOT");
            reveal_strlit("B_1x1_Gate_NOT_Bitwise");
            reveal_strlit("NOT");
            assert("BrickComponentType_WireGraph_Expr_BitwiseNOT"@.subrange(41, 44) =~= "NOT"@);
            assert(occurs_at("BrickComponentType_WireGraph_Expr_BitwiseNOT"@, "NOT"@, 41));
            assert("B_1x1_Gate_NOT_Bitwise"@.subrange(11, 14) =~= "NOT"@);
            assert(occurs_at("B_1x1_Gate_NOT_Bitwise"@, "NOT"@, 11));
            reveal_strlit("Bitwise");
            assert("BrickComponentType_WireGraph_Expr_BitwiseNOT"@.subrange(34, 41) =~= "Bitwise"@);
            assert(occurs_at("BrickComponentType_WireGraph_Expr_BitwiseNOT"@, "Bitwise"@, 34));
            assert("B_1x1_Gate_NOT_Bitwise"@.subrange(15, 22) =~= "Bitwise"@);
            assert(occurs_at("B_1x1_Gate_NOT_Bitwise"@, "Bitwise"@, 15));
        },
        LogicGate::BitShiftLeft => {
            reveal_strlit("BrickComponentType_WireGraph_Expr_BitwiseShiftLeft");
            reveal_strlit("B_1x1_Gate_ShiftLeft_Bitwise");
            reveal_strlit("ShiftLeft");
            assert("BrickComponentType_WireGraph_Expr_BitwiseShiftLeft"@.subrange(41, 50) =~= "ShiftLeft"@);
            assert(occurs_at("BrickComponentType_WireGraph_Expr_BitwiseShiftLeft"@, "ShiftLeft"@, 41));
            assert("B_1x1_Gate_ShiftLeft_Bitwise"@.subrange(11, 20) =~= "ShiftLeft"@);
            assert(occurs_at("B_1x1_Gate_ShiftLeft_Bitwise"@, "ShiftLeft"@, 11));
            reveal_strlit("Bitwise");
            assert("BrickComponentType_WireGraph_Expr_BitwiseShiftLeft"@.subrange(34, 41) =~= "Bitwise"@);
            assert(occurs_at("BrickComponentType_WireGraph_Expr_BitwiseShiftLeft"@, "Bitwise"@, 34));
            assert("B_1x1_Gate_ShiftLeft_Bitwise"@.subrange(21, 28) =~= "Bitwise"@);
            assert(occurs_at("B_1x1_Gate_ShiftLeft_Bitwise"@, "Bitwise"@, 21));
        },
        LogicGate::BitShiftRight => {
            reveal_strlit("BrickComponentType_WireGraph_Expr_BitwiseShiftRight");
            reveal_strlit("B_1x1_Gate_ShiftRight_Bitwise");
            reveal_strlit("ShiftRight");
            assert("BrickComponentType_WireGraph_Expr_BitwiseShiftRight"@.subrange(41, 51) =~= "ShiftRight"@);
            assert(occurs_at("BrickComponentType_WireGraph_Expr_BitwiseShiftRight"@, "ShiftRight"@, 41));
            assert("B_1x1_Gate_ShiftRight_Bitwise"@.subrange(11, 21) =~= "ShiftRight"@);
            assert(occurs_at("B_1x1_Gate_ShiftRight_Bitwise"@, "ShiftRight"@, 11));
            reveal_strlit("Bitwise");
            assert("BrickComponentType_WireGraph_Expr_BitwiseShiftRight"@.subrange(34, 41) =~= "Bitwise"@);
            assert(occurs_at("BrickComponentType_WireGraph_Expr_BitwiseShiftRight"@, "Bitwise"@, 34));
            assert("B_1x1_Gate_ShiftRight_Bitwise"@.subrange(22, 29) =~= "Bitwise"@);
            assert(occurs_at("B_1x1_Gate_ShiftRight_Bitwise"@, "Bitwise"@, 22));
        },
        LogicGate::Add => {
            reveal_strlit("BrickComponentType_WireGraph_Expr_MathAdd");
            reveal_strlit("B_1x1_Gate_Add");
            reveal_strlit("Add");
            assert("BrickComponentType_WireGraph_Expr_MathAdd"@.subrange(38, 41) =~= "Add"@);
            assert(occurs_at("BrickComponentType_WireGraph_Expr_MathAdd"@, "Add"@, 38));
            assert("B_1x1_Gate_Add"@.subrange(11, 14) =~= "Add"@);
            assert(occurs_at("B_1x1_Gate_Add"@, "Add"@, 11));
        },
        LogicGate::Sub => {
            reveal_strlit("BrickComponentType_WireGraph_Expr_MathSubtract");
            reveal_strlit("B_1x1_Gate_Subtract");
            reveal_strlit("Subtract");
            assert("BrickComponentType_WireGraph_Expr_MathSubtract"@.subrange(38, 46) =~= "Subtract"@);
            assert(occurs_at("BrickComponentType_WireGraph_Expr_MathSubtract"@, "Subtract"@, 38));
            assert("B_1x1_Gate_Subtract"@.subrange(11, 19) =~= "Subtract"@);
            assert(occurs_at("B_1x1_Gate_Subtract"@, "Subtract"@, 11));
        },
        LogicGate::Mul => {
            reveal_strlit("BrickComponentType_WireGraph_Expr_MathMultiply");
            reveal_strlit("B_1x1_Gate_Multiply");
            reveal_strlit("Multiply");
            assert("BrickComponentType_WireGraph_Expr_MathMultiply"@.subrange(38, 46) =~= "Multiply"@);
            assert(occurs_at("BrickComponentType_WireGraph_Expr_MathMultiply"@, "Multiply"@, 38));
            assert("B_1x1_Gate_Multiply"@.subrange(11, 19) =~= "Multiply"@);
            assert(occurs_at("B_1x1_Gate_Multiply"@, "Multiply"@, 11));
        },
        LogicGate::ModFloored => {
            reveal_strlit("BrickComponentType_WireGraph_Expr_MathModuloFloored");
            reveal_strlit("B_1x1_Gate_ModFloored");
            reveal_strlit("Floored");
            assert("BrickComponentType_WireGraph_Expr_MathModuloFloored"@.subrange(44, 51) =~= "Floored"@);
            assert(occurs_at("BrickComponentType_WireGraph_Expr_MathModuloFloored"@, "Floored"@, 44));
            assert("B_1x1_Gate_ModFloored"@.subrange(14, 21) =~= "Floored"@);
            assert(occurs_at("B_1x1_Gate_ModFloored"@, "Floored"@, 14));
        },
        LogicGate::Mod => {
            reveal_strlit("BrickComponentType_WireGraph_Expr_MathModulo");
            reveal_strlit("B_1x1_Gate_Mod");
            reveal_strlit("Mod");
            assert("BrickComponentType_WireGraph_Expr_MathModulo"@.subrange(38, 41) =~= "Mod"@);
            assert(occurs_at("BrickComponentType_WireGraph_Expr_MathModulo"@, "Mod"@, 38));
            assert("B_1x1_Gate_Mod"@.subrange(11, 14) =~= "Mod"@);
            assert(occurs_at("B_1x1_Gate_Mod"@, "Mod"@, 11));
        },
        LogicGate::Div => {
            reveal_strlit("BrickComponentType_WireGraph_Expr_MathDivide");
            reveal_strlit("B_1x1_Gate_Divide");
            reveal_strlit("Divide");
            assert("BrickComponentType_WireGraph_Expr_MathDivide"@.subrange(38, 44) =~= "Divide"@);
            assert(occurs_at("BrickComponentType_WireGraph_Expr_MathDivide"@, "Divide"@, 38));
            assert("B_1x1_Gate_Divide"@.subrange(11, 17) =~= "Divide"@);
            assert(occurs_at("B_1x1_Gate_Divide"@, "Divide"@, 11));
        },
        LogicGate::Ceil => {
            reveal_strlit("BrickComponentType_WireGraph_Expr_Ceil");
            reveal_strlit("B_1x1_Gate_Ceiling");
            reveal_strlit("Ceil");
            assert("BrickComponentType_WireGraph_Expr_Ceil"@.subrange(34, 38) =~= "Ceil"@);
            assert(occurs_at("BrickComponentType_WireGraph_Expr_Ceil"@, "Ceil"@, 34));
            assert("B_1x1_Gate_Ceiling"@.subrange(11, 15) =~= "Ceil"@);
            assert(occurs_at("B_1x1_Gate_Ceiling"@, "Ceil"@, 11));
        },
        LogicGate::Floor => {
            reveal_strlit("BrickComponentType_WireGraph_Expr_Floor");
            reveal_strlit("B_1x1_Gate_Floor");
            reveal_strlit("Floor");
            assert("BrickComponentType_WireGraph_Expr_Floor"@.subrange(34, 39) =~= "Floor"@);
            assert(occurs_at("BrickComponentType_WireGraph_Expr_Floor"@, "Floor"@, 34));
            assert("B_1x1_Gate_Floor"@.subrange(11, 16) =~= "Floor"@);
            assert(occurs_at("B_1x1_Gate_Floor"@, "Floor"@, 11));
        },
        LogicGate::Blend => {
            reveal_strlit("BrickComponentType_WireGraph_Expr_MathBlend");
            reveal_strlit("B_1x1_Gate_Blend");
            reveal_strlit("Blend");
            assert("BrickComponentType_WireGraph_Expr_MathBlend"@.subrange(38, 43) =~= "Blend"@);
            assert(occurs_at("BrickComponentType_WireGraph_Expr_MathBlend"@, "Blend"@, 38));
            assert("B_1x1_Gate_Blend"@.subrange(11, 16) =~= "Blend"@);
            assert(occurs_at("B_1x1_Gate_Blend"@, "Blend"@, 11));
        },
        LogicGate::Eq => {
            reveal_strlit("BrickComponentType_WireGraph_Expr_CompareEqual");
            reveal_strlit("B_1x1_Gate_Equal");
            reveal_strlit("Equal");
            assert("BrickComponentType_WireGraph_Expr_CompareEqual"@.subrange(41, 46) =~= "Equal"@);
            assert(occurs_at("BrickComponentType_WireGraph_Expr_CompareEqual"@, "Equal"@, 41));
            assert("B_1x1_Gate_Equal"@.subrange(11, 16) =~= "Equal"@);
            assert(occurs_at("B_1x1_Gate_Equal"@, "Equal"@, 11));
        },
        LogicGate::Neq => {
            reveal_strlit("BrickComponentType_WireGraph_Expr_CompareNotEqual");
            reveal_strlit("B_1x1_Gate_NotEqual");
            reveal_strlit("NotEqual");
            assert("BrickComponentType_WireGraph_Expr_CompareNotEqual"@.subrange(41, 49) =~= "NotEqual"@);
            assert(occurs_at("BrickComponentType_WireGraph_Expr_CompareNotEqual"@, "NotEqual"@, 41));
            assert("B_1x1_Gate_NotEqual"@.subrange(11, 19) =~= "NotEqual"@);
            assert(occurs_at("B_1x1_Gate_NotEqual"@, "NotEqual"@, 11));
        },
        LogicGate::Lt => {
            reveal_strlit("BrickComponentType_WireGraph_Expr_CompareLess");
            reveal_strlit("B_1x1_Gate_LessThan");
            reveal_strlit("Less");
            assert("BrickComponentType_WireGraph_Expr_CompareLess"@.subrange(41, 45) =~= "Less"@);
            assert(occurs_at("BrickComponentType_WireGraph_Expr_CompareLess"@, "Less"@, 41));
            assert("B_1x1_Gate_LessThan"@.subrange(11, 15) =~= "Less"@);
            assert(occurs_at("B_1x1_Gate_LessThan"@, "Less"@, 11));
        },
        LogicGate::Leq => {
            reveal_strlit("BrickComponentType_WireGraph_Expr_CompareLessOrEqual");
            reveal_strlit("B_1x1_Gate_LessThanEqual");
            reveal_strlit("Less");
            assert("BrickComponentType_WireGraph_Expr_CompareLessOrEqual"@.subrange(41, 45) =~= "Less"@);
            assert(occurs_at("BrickComponentType_WireGraph_Expr_CompareLessOrEqual"@, "Less"@, 41));
            assert("B_1x1_Gate_LessThanEqual"@.subrange(11, 15) =~= "Less"@);
            assert(occurs_at("B_1x1_Gate_LessThanEqual"@, "Less"@, 11));
        },
        LogicGate::Gt => {
            reveal_strlit("BrickComponentType_WireGraph_Expr_CompareGreater");
            reveal_strlit("B_1x1_Gate_GreaterThan");
            reveal_strlit("Greater");
            assert("BrickComponentType_WireGraph_Expr_CompareGreater"@.subrange(41, 48) =~= "Greater"@);
            assert(occurs_at("BrickComponentType_WireGraph_Expr_CompareGreater"@, "Greater"@, 41));
            assert("B_1x1_Gate_GreaterThan"@.subrange(11, 18) =~= "Greater"@);
            assert(occurs_at("B_1x1_Gate_GreaterThan"@, "Greater"@, 11));
        },
        LogicGate::Geq => {
            reveal_strlit("BrickComponentType_WireGraph_Expr_CompareGreaterOrEqual");
            reveal_strlit("B_1x1_Gate_GreaterThanEqual");
            reveal_strlit("Greater");
            assert("BrickComponentType_WireGraph_Expr_CompareGreaterOrEqual"@.subrange(41, 48) =~= "Greater"@);
            assert(occurs_at("BrickComponentType_WireGraph_Expr_CompareGreaterOrEqual"@, "Greater"@, 41));
            assert("B_1x1_Gate_GreaterThanEqual"@.subrange(11, 18) =~= "Greater"@);
            assert(occurs_at("B_1x1_Gate_GreaterThanEqual"@, "Greater"@, 11));
        },
        LogicGate::Const => {
            reveal_strlit("BrickComponentType_WireGraphPseudo_Const");
            reveal_strlit("B_1x1_Gate_Constant");
            reveal_strlit("Const");
            assert("BrickComponentType_WireGraphPseudo_Const"@.subrange(35, 40) =~= "Const"@);
            assert(occurs_at("BrickComponentType_WireGraphPseudo_Const"@, "Const"@, 35));
            assert("B_1x1_Gate_Constant"@.subrange(11, 16) =~= "Const"@);
            assert(occurs_at("B_1x1_Gate_Constant"@, "Const"@, 11));
        },
        LogicGate::EdgeDetector => {
            reveal_strlit("BrickComponent_WireGraph_Expr_EdgeDetector");
            reveal_strlit("B_1x1_Gate_EdgeDetector");
            reveal_strlit("EdgeDetector");
            assert("BrickComponent_WireGraph_Expr_EdgeDetector"@.subrange(30, 42) =~= "EdgeDetector"@);
            assert(occurs_at("BrickComponent_WireGraph_Expr_EdgeDetector"@, "EdgeDetector"@, 30));
            assert("B_1x1_Gate_EdgeDetector"@.subrange(11, 23) =~= "EdgeDetector"@);
            assert(occurs_at("B_1x1_Gate_EdgeDetector"@, "EdgeDetector"@, 11));
        },
    }
}

/// Each property of the data struct of a gate is also a wire port of that
/// gate; all wire ports of a boolean gate have names starting with `b`.
pub proof fn lemma_gate_data_in_ports(g: LogicGate)
    ensures
        forall|k: int| 0 <= k < gate_prop_types(g).len() ==> gate_port_names(g).contains(#[trigger] gate_prop_types(g)[k].0),
        gate_is_bool(g) ==> forall|k: int| 0 <= k < gate_port_names(g).len() ==> (#[trigger] gate_port_names(g)[k]).len() > 0
            && gate_port_names(g)[k][0] == 'b',
{
    match g {
        LogicGate::BoolAnd => {
            assert(gate_port_names(g)[0] == "bInputA"@);
            assert(gate_port_names(g)[1] == "bInputB"@);
            reveal_strlit("bInputA");
            reveal_strlit("bInputB");
            reveal_strlit("bOutput");
        },
        LogicGate::BoolOr => {
            assert(gate_port_names(g)[0] == "bInputA"@);
            assert(gate_port_names(g)[1] == "bInputB"@);
            reveal_strlit("bInputA");
            reveal_strlit("bInputB");
            reveal_strlit("bOutput");
        },
        LogicGate::BoolXor => {
            assert(gate_port_names(g)[0] == "bInputA"@);
            assert(gate_port_names(g)[1] == "bInputB"@);
            reveal_strlit("bInputA");
            reveal_strlit("bInputB");
            reveal_strlit("bOutput");
        },
        LogicGate::BoolNand => {
            assert(gate_port_names(g)[0] == "bInputA"@);
            assert(gate_port_names(g)[1] == "bInputB"@);
            reveal_strlit("bInputA");
            reveal_strlit("bInputB");
            reveal_strlit("bOutput");
        },
        LogicGate::BoolNor => {
            assert(gate_port_names(g)[0] == "bInputA"@);
            assert(gate_port_names(g)[1] == "bInputB"@);
            reveal_strlit("bInputA");
            reveal_strlit("bInputB");
            reveal_strlit("bOutput");
        },
        LogicGate::BoolNot => {
            assert(gate_port_names(g)[0] == "bInput"@);
            reveal_strlit("bInput");
            reveal_strlit("bOutput");
        },
        LogicGate::BitAnd => {
            assert(gate_port_names(g)[0] == "InputA"@);
            assert(gate_port_names(g)[1] == "InputB"@);
        },
        LogicGate::BitOr => {
            assert(gate_port_names(g)[0] == "InputA"@);
            assert(gate_port_names(g)[1] == "InputB"@);
        },
        LogicGate::BitXor => {
            assert(gate_port_names(g)[0] == "InputA"@);
            assert(gate_port_names(g)[1] == "InputB"@);
        },
        LogicGate::BitNand => {
            assert(gate_port_names(g)[0] == "InputA"@);
            assert(gate_port_names(g)[1] == "InputB"@);
        },
        LogicGate::BitNor => {
            assert(gate_port_names(g)[0] == "InputA"@);
            assert(gate_port_names(g)[1] == "InputB"@);
        },
        LogicGate::BitNot => {
            assert(gate_port_names(g)[0] == "Input"@);
        },
        LogicGate::BitShiftLeft => {
            assert(gate_port_names(g)[0] == "InputA"@);
            assert(gate_port_names(g)[1] == "InputB"@);
        },
        LogicGate::BitShiftRight => {
            assert(gate_port_names(g)[0] == "InputA"@);
            assert(gate_port_names(g)[1] == "InputB"@);
        },
        LogicGate::Add => {
            assert(gate_port_names(g)[0] == "InputA"@);
            assert(gate_port_names(g)[1] == "InputB"@);
        },
        LogicGate::Sub => {
            assert(gate_port_names(g)[0] == "InputA"@);
            assert(gate_port_names(g)[1] == "InputB"@);
        },
        LogicGate::Mul => {
            assert(gate_port_names(g)[0] == "InputA"@);
            assert(gate_port_names(g)[1] == "InputB"@);
        },
        LogicGate::ModFloored => {
            assert(gate_port_names(g)[0] == "InputA"@);
            assert(gate_port_names(g)[1] == "InputB"@);
        },
        LogicGate::Mod => {
            assert(gate_port_names(g)[0] == "InputA"@);
            assert(gate_port_names(g)[1] == "InputB"@);
        },
        LogicGate::Div => {
            assert(gate_port_names(g)[0] == "InputA"@);
            assert(gate_port_names(g)[1] == "InputB"@);
        },
        LogicGate::Ceil => {
            assert(gate_port_names(g)[0] == "Input"@);
        },
        LogicGate::Floor => {
            assert(gate_port_names(g)[0] == "Input"@);
        },
        LogicGate::Blend => {
            assert(gate_port_names(g)[1] == "InputA"@);
            assert(gate_port_names(g)[2] == "InputB"@);
            assert(gate_port_names(g)[0] == "Blend"@);
        },
        LogicGate::Eq => {
            assert(gate_port_names(g)[0] == "InputA"@);
            assert(gate_port_names(g)[1] == "InputB"@);
        },
        LogicGate::Neq => {
            assert(gate_port_names(g)[0] == "InputA"@);
            assert(gate_port_names(g)[1] == "InputB"@);
        },
        LogicGate::Lt => {
            assert(gate_port_names(g)[0] == "InputA"@);
            assert(gate_port_names(g)[1] == "InputB"@);
        },
        LogicGate::Leq => {
            assert(gate_port_names(g)[0] == "InputA"@);
            assert(gate_port_names(g)[1] == "InputB"@);
        },
        LogicGate::Gt => {
            assert(gate_port_names(g)[0] == "InputA"@);
            assert(gate_port_names(g)[1] == "InputB"@);
        },
        LogicGate::Geq => {
            assert(gate_port_names(g)[0] == "InputA"@);
            assert(gate_port_names(g)[1] == "InputB"@);
        },
        LogicGate::Const => {
            assert(gate_port_names(g)[0] == "Value"@);
        },
        LogicGate::EdgeDetector => {
            assert(gate_port_names(g)[0] == "Input"@);
            assert(gate_port_names(g)[1] == "bPulseOnRisingEdge"@);
            assert(gate_port_names(g)[2] == "bPulseOnFallingEdge"@);
        },
    }
}

} // verus!
