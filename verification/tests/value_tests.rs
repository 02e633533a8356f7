use brdb::brick::BrdbComponent;
use brdb::literal::{dynamic_grid_entity, microchip_grid_entity};
use brdb::model::IntVector;
use brdb::errors::BrdbSchemaError;
use brdb::schema_meta::BrdbStructPropRaw;
use brdb::value::{
    write_brdb, write_brdb_zero, F32Val, F64Val, SchemaModel, ValueModel, WireArrayModel, WireModel,
};

fn f64v(x: f64) -> F64Val {
    // the caller's rule: whole numbers that fit are written as integers
    let whole = if x == x.round() && (x as u32) < u32::MAX && (x as i32) > i32::MIN {
        Some(x as i64)
    } else {
        None
    };
    F64Val { bits: x.to_bits(), whole }
}

fn f32v(x: f32) -> F32Val {
    let whole = if x == x.round() && (x as u16) < u16::MAX && (x as i16) > i16::MIN {
        Some(x as i64)
    } else {
        None
    };
    F32Val { bits: x.to_bits(), whole }
}

fn ty(t: &str) -> BrdbStructPropRaw {
    BrdbStructPropRaw::Type(t.to_string())
}

fn strings(v: &[&str]) -> Vec<String> {
    v.iter().map(|s| s.to_string()).collect()
}

fn wire_schema() -> SchemaModel {
    SchemaModel {
        enums: vec![],
        variants: vec![(
            "WireGraphVariant".to_string(),
            strings(&["f64", "i64", "bool", "weak_object", "WireGraphExec", "Vector", "str"]),
        )],
        structs: vec![
            (
                "Vector".to_string(),
                vec![("X".to_string(), ty("f64")), ("Y".to_string(), ty("f64")), ("Z".to_string(), ty("f64"))],
            ),
            ("WireGraphExec".to_string(), vec![]),
        ],
    }
}

fn write(sch: &SchemaModel, t: &str, v: &ValueModel) -> Result<Vec<u8>, BrdbSchemaError> {
    let mut buf = Vec::new();
    write_brdb(sch, &mut buf, t, v).map(|_| buf)
}

#[test]
fn named_variant_tags_follow_member_order() {
    let sch = wire_schema();
    let b = write(&sch, "WireGraphVariant", &ValueModel::Wire(WireModel::Number(f64v(3.5)))).unwrap();
    let mut expect = vec![0u8, 0xcb];
    expect.extend_from_slice(&3.5f64.to_be_bytes());
    assert_eq!(b, expect);
    let b = write(&sch, "WireGraphVariant", &ValueModel::Wire(WireModel::Bool(true))).unwrap();
    assert_eq!(b, vec![2, 0xc3]);
    let b = write(&sch, "WireGraphVariant", &ValueModel::Wire(WireModel::Int(7))).unwrap();
    assert_eq!(b, vec![1, 7]);
    let b = write(&sch, "WireGraphVariant", &ValueModel::Wire(WireModel::Str("hi".to_string()))).unwrap();
    assert_eq!(b, vec![6, 0xa2, b'h', b'i']);
    let v = ValueModel::Wire(WireModel::Vector(f64v(1.0), f64v(2.0), f64v(3.0)));
    assert_eq!(write(&sch, "WireGraphVariant", &v).unwrap(), vec![5, 1, 2, 3]);
    let b = write(&sch, "WireGraphVariant", &ValueModel::Wire(WireModel::Exec)).unwrap();
    assert_eq!(b, vec![4]);
}

#[test]
fn named_variant_without_the_member_is_refused() {
    let sch = wire_schema();
    let c = WireModel::LinearColor(f32v(1.0), f32v(0.5), f32v(0.0), f32v(1.0));
    match write(&sch, "WireGraphVariant", &ValueModel::Wire(c)) {
        Err(BrdbSchemaError::ExpectedType(a, b)) => {
            assert_eq!(a, "WireGraphVariant member");
            assert_eq!(b, "LinearColor");
        },
        other => panic!("unexpected {other:?}"),
    }
    assert!(matches!(
        write(&sch, "WireGraphVariant", &ValueModel::U8(1)),
        Err(BrdbSchemaError::ExpectedType(..))
    ));
}

#[test]
fn zero_of_a_variant_is_its_first_member() {
    let sch = wire_schema();
    let mut buf = Vec::new();
    write_brdb_zero(&sch, &mut buf, "WireGraphVariant").unwrap();
    assert_eq!(buf, vec![0, 0]);
    let mut buf = Vec::new();
    write_brdb_zero(&sch, &mut buf, "Vector").unwrap();
    assert_eq!(buf, vec![0, 0, 0]);
    let mut buf = Vec::new();
    write_brdb_zero(&sch, &mut buf, "class").unwrap();
    assert_eq!(buf, vec![0xff]);
    let mut buf = Vec::new();
    assert!(matches!(
        write_brdb_zero(&sch, &mut buf, "Nope"),
        Err(BrdbSchemaError::UnknownType(t)) if t == "Nope"
    ));
}

#[test]
fn legacy_wire_graph_variant_weak_object() {
    let sch = SchemaModel { enums: vec![], variants: vec![], structs: vec![] };
    for (obj, last) in [(Some(5usize), 5u8), (None, 0xff)] {
        let b = write(&sch, "wire_graph_variant", &ValueModel::Wire(WireModel::Object(obj))).unwrap();
        assert_eq!(b, vec![3, last]);
    }
    let b = write(&sch, "wire_graph_prim_math_variant", &ValueModel::Wire(WireModel::Int(-1))).unwrap();
    assert_eq!(b, vec![1, 0xff]);
    assert!(matches!(
        write(&sch, "wire_graph_variant", &ValueModel::Wire(WireModel::Str("x".to_string()))),
        Err(BrdbSchemaError::ExpectedType(a, _)) if a == "wire_graph_variant"
    ));
}

#[test]
fn named_array_variant_writes_the_values_array() {
    let sch = SchemaModel {
        enums: vec![],
        variants: vec![(
            "WireGraphArrayVariant".to_string(),
            strings(&["WireGraphDoubleArray", "WireGraphStringArray"]),
        )],
        structs: vec![],
    };
    let a = WireArrayModel::DoubleArray(vec![f64v(1.0), f64v(2.0), f64v(3.0)]);
    let b = write(&sch, "WireGraphArrayVariant", &ValueModel::WireArray(a)).unwrap();
    assert_eq!(b, vec![0, 0x93, 1, 2, 3]);
    let a = WireArrayModel::StringArray(strings(&["a", "b"]));
    let b = write(&sch, "WireGraphArrayVariant", &ValueModel::WireArray(a)).unwrap();
    assert_eq!(b, vec![1, 0x92, 0xa1, b'a', 0xa1, b'b']);
}

fn struct_schema() -> SchemaModel {
    SchemaModel {
        enums: vec![("Mode".to_string(), vec![("A".to_string(), 0), ("B".to_string(), 1)])],
        variants: vec![],
        structs: vec![
            (
                "Point".to_string(),
                vec![("X".to_string(), ty("i32")), ("Y".to_string(), ty("i32"))],
            ),
            (
                "Thing".to_string(),
                vec![
                    ("Name".to_string(), ty("str")),
                    ("Mode".to_string(), ty("Mode")),
                    ("At".to_string(), ty("Point")),
                    ("Tags".to_string(), BrdbStructPropRaw::Array("u8".to_string())),
                    ("Raw".to_string(), BrdbStructPropRaw::FlatArray("u16".to_string())),
                    ("Pts".to_string(), BrdbStructPropRaw::FlatArray("Point".to_string())),
                    (
                        "Lookup".to_string(),
                        BrdbStructPropRaw::MapOf("Mode".to_string(), "Point".to_string()),
                    ),
                ],
            ),
        ],
    }
}

fn point(x: i32, y: i32) -> ValueModel {
    ValueModel::Struct(vec![("X".to_string(), ValueModel::I32(x)), ("Y".to_string(), ValueModel::I32(y))])
}

#[test]
fn struct_properties_in_schema_order() {
    let sch = struct_schema();
    let v = ValueModel::Struct(vec![
        ("Tags".to_string(), ValueModel::Array(vec![ValueModel::U8(1), ValueModel::U8(200)])),
        ("Name".to_string(), ValueModel::Str("ab".to_string())),
        ("Mode".to_string(), ValueModel::Enum(1)),
        ("At".to_string(), point(-1, 300)),
        ("Raw".to_string(), ValueModel::FlatArray(vec![ValueModel::U16(0x0102)])),
        ("Pts".to_string(), ValueModel::FlatArray(vec![point(1, -2)])),
        ("Lookup".to_string(), ValueModel::MapOf(vec![(ValueModel::Enum(0), point(2, 3))])),
    ]);
    let b = write(&sch, "Thing", &v).unwrap();
    assert_eq!(
        b,
        vec![
            0xa2, b'a', b'b', // Name
            1,    // Mode
            0xff, 0xcd, 0x01, 0x2c, // At: -1, 300
            0x92, 1, 0xcc, 200, // Tags
            0xc4, 2, 0x02, 0x01, // Raw: bin8 of 2 bytes, little-endian
            0xc4, 8, 1, 0, 0, 0, 0xfe, 0xff, 0xff, 0xff, // Pts: one flat Point
            0x81, 0, 2, 3, // Lookup
        ]
    );
}

#[test]
fn missing_properties_are_written_empty() {
    let sch = struct_schema();
    let b = write(&sch, "Thing", &ValueModel::Struct(vec![])).unwrap();
    assert_eq!(b, vec![0xa0, 0, 0, 0, 0x90, 0xc4, 0, 0xc4, 0, 0x80]);
}

#[test]
fn value_errors() {
    let sch = struct_schema();
    assert!(matches!(
        write(&sch, "Mode", &ValueModel::Enum(2)),
        Err(BrdbSchemaError::EnumIndexOutOfBounds(n, 2)) if n == "Mode"
    ));
    assert!(matches!(
        write(&sch, "Nope", &ValueModel::Nil),
        Err(BrdbSchemaError::UnknownType(n)) if n == "Nope"
    ));
    assert!(matches!(
        write(&sch, "Point", &ValueModel::U8(1)),
        Err(BrdbSchemaError::ExpectedType(a, _)) if a == "struct"
    ));
    assert!(matches!(write(&sch, "u16", &ValueModel::U8(1)), Err(BrdbSchemaError::ExpectedType(a, _)) if a == "u16"));
    // a flat property that is a point missing a field
    let v = ValueModel::Struct(vec![(
        "Pts".to_string(),
        ValueModel::FlatArray(vec![ValueModel::Struct(vec![("X".to_string(), ValueModel::I32(1))])]),
    )]);
    assert!(matches!(
        write(&sch, "Thing", &v),
        Err(BrdbSchemaError::MissingStructField(_, f)) if f == "Y"
    ));
}

#[test]
fn scalars_take_their_shortest_forms() {
    let sch = SchemaModel { enums: vec![], variants: vec![], structs: vec![] };
    assert_eq!(write(&sch, "u8", &ValueModel::U8(200)).unwrap(), vec![0xcc, 200]);
    assert_eq!(write(&sch, "u16", &ValueModel::U16(40000)).unwrap(), vec![0xcd, 0x9c, 0x40]);
    assert_eq!(write(&sch, "i16", &ValueModel::I16(-33)).unwrap(), vec![0xd0, 0xdf]);
    assert_eq!(write(&sch, "bool", &ValueModel::Bool(false)).unwrap(), vec![0xc2]);
    assert_eq!(write(&sch, "f32", &ValueModel::F32(f32v(2.0))).unwrap(), vec![2]);
    let mut expect = vec![0xca];
    expect.extend_from_slice(&0.5f32.to_be_bytes());
    assert_eq!(write(&sch, "f32", &ValueModel::F32(f32v(0.5))).unwrap(), expect);
    assert_eq!(write(&sch, "class", &ValueModel::Asset(Some(3))).unwrap(), vec![3]);
    assert_eq!(write(&sch, "object", &ValueModel::Asset(None)).unwrap(), vec![0xff]);
    assert_eq!(write(&sch, "bundle_path_ref", &ValueModel::U8(1)).unwrap(), vec![0xa0]);
    let long = "x".repeat(40);
    let b = write(&sch, "str", &ValueModel::Str(long)).unwrap();
    assert_eq!(&b[..2], &[0xd9, 40]);
}

#[test]
fn microchip_grid_entity_writes_by_its_schema() {
    let ivec = vec![("X".to_string(), ty("i32")), ("Y".to_string(), ty("i32")), ("Z".to_string(), ty("i32"))];
    let sch = SchemaModel {
        enums: vec![],
        variants: vec![],
        structs: vec![
            ("IntVector".to_string(), ivec),
            (
                "Microchip".to_string(),
                vec![
                    ("bCollapsed".to_string(), ty("bool")),
                    ("PlaneCenter".to_string(), ty("IntVector")),
                    ("PlaneExtent".to_string(), ty("IntVector")),
                ],
            ),
        ],
    };
    let c = microchip_grid_entity(true, IntVector::new(0, 0, -1), IntVector::new(14, 14, 2));
    assert_eq!(c.component_type().unwrap().as_str(), "Entity_MicrochipDynamicBrickGrid");
    let b = write(&sch, "Microchip", &c.to_value()).unwrap();
    assert_eq!(b, vec![0xc3, 0, 0, 0xff, 14, 14, 2]);
    let d = dynamic_grid_entity();
    assert_eq!(d.component_type().unwrap().as_str(), "Entity_DynamicBrickGrid");
    assert!(d.data.is_empty());
}
