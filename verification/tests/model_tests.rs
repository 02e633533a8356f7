use brdb::bits::BitFlags;
use brdb::brick::{BrdbComponent, Brick};
use brdb::entities::{lookup_entity_struct_name, EntityColors};
use brdb::errors::{BrdbSchemaError, BrdbWorldError};
use brdb::flat::{
    read_flat_i16, read_flat_i32, read_flat_i64, read_flat_i8, read_flat_u16, read_flat_u32,
    read_flat_u64, read_flat_u8, read_str_from_len, write_flat_i16, write_flat_i32,
    write_flat_i64, write_flat_i8, write_flat_u16, write_flat_u32, write_flat_u64, write_flat_u8,
};
use brdb::logic::LogicGate;
use brdb::schema_meta::BrdbStructPropRaw;
use brdb::model::{
    byte_to_orientation, orientation_to_byte, BString, BrickSize, BrickType, ChunkIndex, Collision,
    Color, Direction, FoundFile, IntVector, Position, Rotation, SavedBrickColor,
};

#[test]
fn bit_flags_set_get_push() {
    let mut f = BitFlags::new(10);
    assert!(!f.get(3));
    f.set(3, true);
    assert!(f.get(3));
    assert!(!f.get(2));
    f.set(3, false);
    assert!(!f.get(3));
    // Beyond the bytes: ignored and false.
    f.set(100, true);
    assert!(!f.get(100));
    let mut g = BitFlags::default();
    for i in 0..20 {
        g.push(i % 3 == 0);
    }
    for i in 0..20 {
        assert_eq!(g.get(i), i % 3 == 0);
    }
    assert!(!g.get(20));
}

#[test]
fn bit_flags_full_masks_the_last_byte() {
    let f = BitFlags::new_full(11);
    for i in 0..11 {
        assert!(f.get(i));
    }
    for i in 11..16 {
        assert!(!f.get(i));
    }
    assert!(BitFlags::get_from_vec(&[0b0000_0100], 2));
    assert!(!BitFlags::get_from_vec(&[0b0000_0100], 10));
    let e = BitFlags::new_full(8);
    assert!(e.get(7));
}

#[test]
fn flat_values_round_trip() {
    let mut buf = Vec::new();
    write_flat_u8(&mut buf, 200).unwrap();
    write_flat_u16(&mut buf, 0xBEEF).unwrap();
    write_flat_u32(&mut buf, 0xDEAD_BEEF).unwrap();
    write_flat_u64(&mut buf, 0x0123_4567_89AB_CDEF).unwrap();
    write_flat_i8(&mut buf, -5).unwrap();
    write_flat_i16(&mut buf, -300).unwrap();
    write_flat_i32(&mut buf, -70000).unwrap();
    write_flat_i64(&mut buf, i64::MIN).unwrap();
    assert_eq!(&buf[1..3], &[0xEF, 0xBE]);
    let mut r = buf.as_slice();
    assert_eq!(read_flat_u8(&mut r).unwrap(), 200);
    assert_eq!(read_flat_u16(&mut r).unwrap(), 0xBEEF);
    assert_eq!(read_flat_u32(&mut r).unwrap(), 0xDEAD_BEEF);
    assert_eq!(read_flat_u64(&mut r).unwrap(), 0x0123_4567_89AB_CDEF);
    assert_eq!(read_flat_i8(&mut r).unwrap(), -5);
    assert_eq!(read_flat_i16(&mut r).unwrap(), -300);
    assert_eq!(read_flat_i32(&mut r).unwrap(), -70000);
    assert_eq!(read_flat_i64(&mut r).unwrap(), i64::MIN);
    assert_eq!(r.len(), 0);
    assert_eq!(read_flat_u32(&mut r).unwrap_err(), BrdbSchemaError::UnexpectedEof);
}

#[test]
fn flat_strings() {
    let data = "héllo!".as_bytes().to_vec();
    let mut r = data.as_slice();
    assert_eq!(read_str_from_len(&mut r, 6).unwrap(), "héllo");
    assert_eq!(r, b"!");
    let bad = [0xffu8, 0x00];
    assert_eq!(read_str_from_len(&mut bad.as_slice(), 2).unwrap_err(), BrdbSchemaError::InvalidUtf8);
    assert_eq!(read_str_from_len(&mut bad.as_slice(), 3).unwrap_err(), BrdbSchemaError::UnexpectedEof);
}

#[test]
fn orientations_round_trip() {
    let dirs = [
        Direction::XPositive,
        Direction::XNegative,
        Direction::YPositive,
        Direction::YNegative,
        Direction::ZPositive,
        Direction::ZNegative,
    ];
    let rots = [Rotation::Deg0, Rotation::Deg90, Rotation::Deg180, Rotation::Deg270];
    for d in dirs {
        for r in rots {
            assert_eq!(byte_to_orientation(orientation_to_byte(d, r)), (d, r));
        }
    }
    assert_eq!(orientation_to_byte(Direction::ZPositive, Rotation::Deg90), 17);
    assert_eq!(orientation_to_byte(Direction::MAX, Rotation::Deg0), 24);
    // The direction number wraps modulo 6.
    assert_eq!(byte_to_orientation(24), (Direction::XPositive, Rotation::Deg0));
    assert_eq!(Direction::default(), Direction::ZPositive);
    assert_eq!(Rotation::default(), Rotation::Deg0);
}

#[test]
fn colors_and_plain_values() {
    assert_eq!(Color::new(1, 2, 3), Color { r: 1, g: 2, b: 3 });
    assert_eq!(Color::monochrome(9), Color { r: 9, g: 9, b: 9 });
    assert_eq!(Color::default(), Color { r: 255, g: 255, b: 255 });
    let c = SavedBrickColor::new(Color::new(1, 2, 3), 4);
    assert_eq!(c, SavedBrickColor { r: 1, g: 2, b: 3, a: 4 });
    assert_eq!(c.color(), Color::new(1, 2, 3));
    assert_eq!(SavedBrickColor::rgb(5, 6, 7).a, 255);
    assert_eq!(SavedBrickColor::entity_default(), SavedBrickColor { r: 255, g: 255, b: 255, a: 255 });
    assert_eq!(SavedBrickColor::default().a, 5);
    let e = EntityColors::default();
    assert_eq!(e.7, SavedBrickColor::entity_default());
    assert_eq!(ChunkIndex::new(1, -2, 3), ChunkIndex { x: 1, y: -2, z: 3 });
    assert_eq!(BrickSize::new(4, 5, 6), BrickSize { x: 4, y: 5, z: 6 });
    assert_eq!(FoundFile::new(7, 8), FoundFile { blob_id: 7, created_at: 8 });
    let col = Collision::default();
    assert!(col.player && col.weapon && col.interact && col.tool && col.physics);
    assert_eq!(col.player1, None);
}

#[test]
fn int_vector_cross() {
    let x = IntVector::new(1, 0, 0);
    let y = IntVector::new(0, 1, 0);
    assert_eq!(x.cross(y), IntVector::new(0, 0, 1));
    assert_eq!(y.cross(x), IntVector::new(0, 0, -1));
    assert_eq!(IntVector::new(2, 3, 4).cross(IntVector::new(5, 6, 7)), IntVector::new(-3, 6, -3));
}

#[test]
fn brick_types() {
    let b = BrickType::str("B_Jar");
    assert!(b.is_basic());
    assert!(!b.is_procedural());
    assert_eq!(b.asset().as_str(), "B_Jar");
    let p = BrickType::Procedural { asset: BString::str("PB_DefaultBrick"), size: BrickSize::new(1, 2, 3) };
    assert!(p.is_procedural());
    assert_eq!(p.asset().as_str(), "PB_DefaultBrick");
}

#[test]
fn logic_gate_tables() {
    assert_eq!(LogicGate::BoolAnd.component_name().as_str(), "BrickComponentType_WireGraph_Expr_LogicalAND");
    assert_eq!(LogicGate::EdgeDetector.component_name().as_str(), "BrickComponent_WireGraph_Expr_EdgeDetector");
    assert_eq!(LogicGate::Add.struct_name().as_str(), "BrickComponentData_WireGraph_Expr_PrimMathVariantPrimMathVariant_PrimMathVariant");
    assert_eq!(LogicGate::BoolNot.struct_name().as_str(), "BrickComponentData_WireGraph_Expr_Bool_Bool");
    let names: Vec<String> = LogicGate::Blend.wire_port_names().iter().map(|s| s.as_str().to_string()).collect();
    assert_eq!(names, vec!["Blend", "InputA", "InputB", "Output"]);
    assert_eq!(LogicGate::BoolAnd.data_index("bInputB"), (Some(1), None));
    assert_eq!(LogicGate::BoolAnd.data_index("Blend"), (Some(2), None));
    assert_eq!(LogicGate::BoolAnd.data_index("bPulseOnFallingEdge"), (None, Some(1)));
    assert_eq!(LogicGate::BoolAnd.data_index("Nope"), (None, None));
    assert_eq!(LogicGate::Floor.num_inputs(), 1);
    assert_eq!(LogicGate::Const.num_inputs(), 0);
    assert_eq!(LogicGate::Mul.num_inputs(), 2);
    assert!(LogicGate::BoolXor.is_bool_input());
    assert!(!LogicGate::BitXor.is_bool_output());
    let p = LogicGate::BoolOr.input_a_of(12);
    assert_eq!(p.brick_id, 12);
    assert_eq!(p.component_type.as_str(), "BrickComponentType_WireGraph_Expr_LogicalOR");
    assert_eq!(p.port_name.as_str(), "bInputA");
    assert_eq!(LogicGate::Sub.output_of(1).port_name.as_str(), "Output");
    assert_eq!(LogicGate::Eq.output_of(1).port_name.as_str(), "Output");
    assert_eq!(LogicGate::Ceil.input_of(1).port_name.as_str(), "Input");
    assert_eq!(LogicGate::BoolNand.input_b_of(1).port_name.as_str(), "bInputB");
    assert_eq!(LogicGate::Blend.input_blend_of(1).port_name.as_str(), "Blend");
    assert_eq!(LogicGate::EdgeDetector.rising_edge_of(1).port_name.as_str(), "bPulseOnRisingEdge");
    assert_eq!(LogicGate::EdgeDetector.falling_edge_of(1).port_name.as_str(), "bPulseOnFallingEdge");
    assert_eq!(LogicGate::BoolNot.brick().asset().as_str(), "B_1x1_NOT_Gate");
    assert_eq!(LogicGate::Geq.brick().asset().as_str(), "B_1x1_Gate_GreaterThanEqual");
}

#[test]
fn entity_struct_names() {
    assert_eq!(lookup_entity_struct_name("Entity_Ball"), Some("BP_Entity_Ball_C"));
    assert_eq!(lookup_entity_struct_name("Entity_DynamicBrickGrid"), Some("BrickGridDynamicActor"));
    assert_eq!(lookup_entity_struct_name("Entity_Wheel_Whitewall2"), Some("BP_Entity_Wheel_Whitewall2_C"));
    assert_eq!(lookup_entity_struct_name("Entity_Unknown"), None);
}

struct Marker;

impl BrdbComponent for Marker {
    fn component_type(&self) -> Option<BString> {
        Some(BString::str("Marker"))
    }
}

fn brick(asset: BrickType) -> Brick {
    Brick {
        id: None,
        asset,
        owner_index: None,
        original_owner_index: None,
        position: Position { x: 10, y: 20, z: 30 },
        rotation: Rotation::Deg0,
        direction: Direction::ZPositive,
        collision: Collision::default(),
        visible: true,
        color: Color::default(),
        material: BString::str("BMC_Plastic"),
        material_intensity: 5,
        components: Vec::new(),
    }
}

#[test]
fn brick_ids_components_materials() {
    let mut next = 40usize;
    let b = brick(BrickType::str("B_Jar")).with_id(|| 7);
    assert_eq!(b.get_id(), Some(7));
    let b = b.with_id(|| 8);
    assert_eq!(b.get_id(), Some(7));
    let (b, id) = brick(BrickType::str("B_Jar")).with_id_split(|| 9);
    assert_eq!((b.get_id(), id), (Some(9), 9));
    let mut c = brick(BrickType::str("B_Jar"));
    let id = c.add_id(|| {
        next += 1;
        next
    });
    assert_eq!(id, 41);
    assert_eq!(c.add_id(|| 0), 41);
    let c = c.with_component_box(Box::new(Marker)).with_components(vec![Box::new(Marker) as Box<dyn BrdbComponent>, Box::new(Marker)]);
    assert_eq!(c.components.len(), 3);
    assert_eq!(c.components[0].component_type().unwrap().as_str(), "Marker");
    let c = c.with_material(BString::str("BMC_Metallic"));
    assert_eq!(c.material.as_str(), "BMC_Metallic");
    assert!(brick(BrickType::str("B_1x1_Microchip")).is_microchip_host());
    assert!(!brick(BrickType::str("B_Jar")).is_microchip_host());
}

#[test]
fn brick_bounds() {
    // A basic brick carries no size: it is a point at its position.
    let at = Position { x: 10, y: 20, z: 30 };
    assert_eq!(brick(BrickType::str("B_1x1_Microchip")).local_bounds(), (at, at));
    assert_eq!(brick(BrickType::str("B_1x1_Reroute_Node")).local_bounds(), (at, at));
    assert_eq!(brick(BrickType::str("B_Jar")).local_bounds(), (at, at));
    let p = BrickType::Procedural { asset: BString::str("PB_DefaultBrick"), size: BrickSize::new(1, 2, 3) };
    let (lo, hi) = brick(p).local_bounds();
    assert_eq!((lo, hi), (Position { x: 9, y: 18, z: 27 }, Position { x: 11, y: 22, z: 33 }));
}

#[test]
fn world_error_wrap() {
    let e = BrdbWorldError::UnknownBrickId(3).wrap("Grid 1");
    assert_eq!(e, BrdbWorldError::Wrapped("Grid 1".to_string(), Box::new(BrdbWorldError::UnknownBrickId(3))));
}

#[test]
fn bit_flags_pushes_read_back() {
    let vals = [true, false, true, true, false, false, false, true, true, false, true];
    let mut f = BitFlags::new(0);
    for v in vals {
        f.push(v);
    }
    for (i, v) in vals.iter().enumerate() {
        assert_eq!(f.get(i), *v);
    }
    assert!(!f.get(vals.len()));
    assert!(!f.get(100));
}

#[test]
fn bit_flags_hold_what_was_pushed() {
    let vals = [true, false, true, true, false, false, true, false, true, true, false, true, true];
    let mut f = BitFlags::new(0);
    for v in vals {
        f.push(v);
    }
    for i in 0..24 {
        assert_eq!(f.get(i), i < vals.len() && vals[i]);
    }
}

#[test]
fn int_vector_directions() {

    assert_eq!(IntVector::up(), IntVector::new(0, 0, 1));
    assert_eq!(IntVector::down(), IntVector::new(0, 0, -1));
    assert_eq!(IntVector::left(), IntVector::new(-1, 0, 0));
    assert_eq!(IntVector::right(), IntVector::new(1, 0, 0));
    assert_eq!(IntVector::forward(), IntVector::new(0, -1, 0));
    assert_eq!(IntVector::backward(), IntVector::new(0, 1, 0));
    assert_eq!(IntVector::zero(), IntVector::new(0, 0, 0));
    assert_eq!(IntVector::one(), IntVector::new(1, 1, 1));
    assert_eq!(IntVector::right().cross(IntVector::backward()), IntVector::up());
}

#[test]
fn logic_gate_schema_lists_its_data_struct() {
    let t = |n: &str, ty: &str| (n.to_string(), BrdbStructPropRaw::Type(ty.to_string()));
    let (enums, variants, structs) = LogicGate::BoolAnd.schema();
    assert!(enums.is_empty());
    assert!(variants.is_empty());
    assert_eq!(
        structs,
        vec![(
            "BrickComponentData_WireGraph_Expr_BoolBool_Bool".to_string(),
            vec![t("bInputA", "bool"), t("bInputB", "bool")]
        )]
    );
    let (_, _, structs) = LogicGate::Blend.schema();
    assert_eq!(
        structs,
        vec![(
            "BrickComponentData_WireGraph_Expr_MathBlend".to_string(),
            vec![t("InputA", "WireGraphVariant"), t("InputB", "WireGraphVariant"), t("Blend", "f64")]
        )]
    );
    let (_, _, structs) = LogicGate::EdgeDetector.schema();
    assert_eq!(structs[0].0, LogicGate::EdgeDetector.struct_name().as_str());
    assert_eq!(structs[0].1.len(), 3);
    let (_, _, structs) = LogicGate::Lt.schema();
    assert_eq!(structs[0].1[1], t("InputB", "WireGraphPrimMathVariant"));
}

#[test]
fn the_default_brick() {
    let b = Brick::default();
    assert!(b.id.is_none());
    assert!(matches!(&b.asset, BrickType::Procedural { asset, size } if asset.as_str() == "PB_DefaultBrick" && size.x == 5 && size.y == 5 && size.z == 6));
    assert_eq!(b.material.as_str(), "BMC_Plastic");
    assert_eq!(b.material_intensity, 5);
    assert!(b.visible);
    assert!(b.collision.player && b.collision.weapon && b.collision.physics);
    assert!(b.components.is_empty());
}

#[test]
fn brick_types_order_basic_first_then_by_name_and_size() {
    let basic_a = BrickType::str("B_A");
    let basic_b = BrickType::str("B_B");
    let proc_small = BrickType::Procedural { asset: BString::str("PB_A"), size: BrickSize::new(9, 9, 1) };
    let proc_tall = BrickType::Procedural { asset: BString::str("PB_A"), size: BrickSize::new(1, 1, 2) };
    let proc_other = BrickType::Procedural { asset: BString::str("PB_AB"), size: BrickSize::new(1, 1, 1) };
    assert_eq!(basic_a.cmp(&basic_b), std::cmp::Ordering::Less);
    assert_eq!(basic_b.cmp(&basic_a), std::cmp::Ordering::Greater);
    assert_eq!(basic_a.cmp(&basic_a), std::cmp::Ordering::Equal);
    assert_eq!(basic_b.cmp(&proc_small), std::cmp::Ordering::Less);
    assert_eq!(proc_small.cmp(&basic_a), std::cmp::Ordering::Greater);
    assert_eq!(proc_small.cmp(&proc_tall), std::cmp::Ordering::Less);
    assert_eq!(proc_tall.cmp(&proc_other), std::cmp::Ordering::Less);
    assert_eq!(BrickSize::new(2, 1, 1).cmp(&BrickSize::new(1, 2, 1)), std::cmp::Ordering::Less);
    assert_eq!(BrickSize::new(3, 3, 3).cmp(&BrickSize::new(3, 3, 3)), std::cmp::Ordering::Equal);
}

#[test]
fn components_added_by_value() {
    let mut b = Brick::default();
    b.add_component(Marker);
    let b = b.with_component(Marker);
    assert_eq!(b.components.len(), 2);
    assert_eq!(b.components[1].component_type().unwrap().as_str(), "Marker");
}
