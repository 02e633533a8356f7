use brdb::errors::BrdbSchemaError;
use brdb::schema_meta::BrdbStructPropRaw;
use brdb::value::{write_brdb, write_brdb_zero, F64Val, SchemaModel, ValueModel, WireArrayModel, WireModel};
use brdb::value_read::{read_type, ReadValue, StoredNum, WireArrayRead, WireRead};

fn f64v(x: f64) -> F64Val {
    let whole = if x == x.round() && (x as u32) < u32::MAX && (x as i32) > i32::MIN {
        Some(x as i64)
    } else {
        None
    };
    F64Val { bits: x.to_bits(), whole }
}

// what the caller does with a stored float
fn as_f64(n: &StoredNum) -> f64 {
    match n {
        StoredNum::Int(i) => *i as f64,
        StoredNum::F32Bits(b) => f32::from_bits(*b) as f64,
        StoredNum::F64Bits(b) => f64::from_bits(*b),
    }
}

fn ty(t: &str) -> BrdbStructPropRaw {
    BrdbStructPropRaw::Type(t.to_string())
}

fn strings(v: &[&str]) -> Vec<String> {
    v.iter().map(|s| s.to_string()).collect()
}

fn vector_struct() -> (String, Vec<(String, BrdbStructPropRaw)>) {
    (
        "Vector".to_string(),
        vec![("X".to_string(), ty("f64")), ("Y".to_string(), ty("f64")), ("Z".to_string(), ty("f64"))],
    )
}

fn read(sch: &SchemaModel, t: &str, buf: &[u8]) -> Result<ReadValue, BrdbSchemaError> {
    let mut b = buf;
    read_type(sch, 0, t, &mut b)
}

#[test]
fn test_named_variant_round_trip() {
    let schema = SchemaModel {
        enums: vec![],
        variants: vec![("WireGraphVariant".to_string(), strings(&["f64", "i64", "bool", "Vector"]))],
        structs: vec![vector_struct()],
    };
    let mut buf = Vec::new();
    write_brdb(&schema, &mut buf, "WireGraphVariant", &ValueModel::Wire(WireModel::Number(f64v(3.5)))).unwrap();
    assert_eq!(buf[0], 0);
    let val = read(&schema, "WireGraphVariant", &buf).unwrap();
    assert!(matches!(val, ReadValue::F64(n) if as_f64(&n) == 3.5));

    let mut buf = Vec::new();
    write_brdb(&schema, &mut buf, "WireGraphVariant", &ValueModel::Wire(WireModel::Bool(true))).unwrap();
    assert_eq!(buf[0], 2);
    let val = read(&schema, "WireGraphVariant", &buf).unwrap();
    assert!(matches!(val, ReadValue::Bool(true)));

    let mut buf = Vec::new();
    write_brdb(&schema, &mut buf, "WireGraphVariant", &ValueModel::Wire(WireModel::Int(7))).unwrap();
    assert_eq!(buf[0], 1);
    let val = read(&schema, "WireGraphVariant", &buf).unwrap();
    assert!(matches!(val, ReadValue::I64(7)));

    let mut buf = Vec::new();
    write_brdb_zero(&schema, &mut buf, "WireGraphVariant").unwrap();
    let val = read(&schema, "WireGraphVariant", &buf).unwrap();
    assert!(matches!(val, ReadValue::F64(n) if as_f64(&n) == 0.0));
}

#[test]
fn test_legacy_wire_graph_variant_weak_object() {
    let schema = SchemaModel { enums: vec![], variants: vec![], structs: vec![] };
    for obj in [Some(5usize), None] {
        let mut buf = Vec::new();
        write_brdb(&schema, &mut buf, "wire_graph_variant", &ValueModel::Wire(WireModel::Object(obj))).unwrap();
        assert_eq!(buf[0], 3);
        let val = read(&schema, "wire_graph_variant", &buf).unwrap();
        match val {
            ReadValue::Wire(WireRead::Object(got)) => assert_eq!(got, obj),
            other => panic!("expected Object, got {other:?}"),
        }
    }
}

#[test]
fn test_named_variant_vector_and_str_round_trip() {
    let schema = SchemaModel {
        enums: vec![],
        variants: vec![(
            "WireGraphVariant".to_string(),
            strings(&["f64", "i64", "bool", "weak_object", "WireGraphExec", "Vector", "str"]),
        )],
        structs: vec![vector_struct(), ("WireGraphExec".to_string(), vec![])],
    };
    let mut buf = Vec::new();
    write_brdb(&schema, &mut buf, "WireGraphVariant", &ValueModel::Wire(WireModel::Str("hi".into()))).unwrap();
    assert_eq!(buf[0], 6);
    let val = read(&schema, "WireGraphVariant", &buf).unwrap();
    assert!(matches!(val, ReadValue::Str(s) if s == "hi"));

    let mut buf = Vec::new();
    let v = WireModel::Vector(f64v(1.0), f64v(2.0), f64v(3.0));
    write_brdb(&schema, &mut buf, "WireGraphVariant", &ValueModel::Wire(v)).unwrap();
    assert_eq!(buf[0], 5);
    let val = read(&schema, "WireGraphVariant", &buf).unwrap();
    assert!(matches!(val, ReadValue::Struct(..)));

    let mut buf = Vec::new();
    write_brdb(&schema, &mut buf, "WireGraphVariant", &ValueModel::Wire(WireModel::Str("yo".into()))).unwrap();
    assert_eq!(buf[0], 6);
    let val = read(&schema, "WireGraphVariant", &buf).unwrap();
    assert!(matches!(val, ReadValue::Str(s) if s == "yo"));

    let mut buf = Vec::new();
    let v = WireModel::Vector(f64v(4.0), f64v(5.0), f64v(6.0));
    write_brdb(&schema, &mut buf, "WireGraphVariant", &ValueModel::Wire(v)).unwrap();
    assert_eq!(buf[0], 5);
}

#[test]
fn test_named_array_variant_round_trip() {
    let schema = SchemaModel {
        enums: vec![],
        variants: vec![(
            "WireGraphArrayVariant".to_string(),
            strings(&["WireGraphDoubleArray", "WireGraphStringArray"]),
        )],
        structs: vec![
            (
                "WireGraphDoubleArray".to_string(),
                vec![("Values".to_string(), BrdbStructPropRaw::Array("f64".to_string()))],
            ),
            (
                "WireGraphStringArray".to_string(),
                vec![("Values".to_string(), BrdbStructPropRaw::Array("str".to_string()))],
            ),
        ],
    };
    let mut buf = Vec::new();
    let a = WireArrayModel::DoubleArray(vec![f64v(1.0), f64v(2.0), f64v(3.0)]);
    write_brdb(&schema, &mut buf, "WireGraphArrayVariant", &ValueModel::WireArray(a)).unwrap();
    assert_eq!(buf[0], 0);
    let val = read(&schema, "WireGraphArrayVariant", &buf).unwrap();
    match WireArrayRead::try_from(&val).unwrap() {
        WireArrayRead::DoubleArray(v) => {
            assert_eq!(v.iter().map(as_f64).collect::<Vec<_>>(), vec![1.0, 2.0, 3.0])
        },
        other => panic!("unexpected {other:?}"),
    }

    let mut buf = Vec::new();
    let a = WireArrayModel::StringArray(strings(&["a", "b"]));
    write_brdb(&schema, &mut buf, "WireGraphArrayVariant", &ValueModel::WireArray(a)).unwrap();
    assert_eq!(buf[0], 1);
    let val = read(&schema, "WireGraphArrayVariant", &buf).unwrap();
    match WireArrayRead::try_from(&val).unwrap() {
        WireArrayRead::StringArray(v) => assert_eq!(v, strings(&["a", "b"])),
        other => panic!("unexpected {other:?}"),
    }
}

#[test]
fn reading_structs_flat_arrays_and_errors() {
    let schema = SchemaModel {
        enums: vec![("Mode".to_string(), vec![("A".to_string(), 0), ("B".to_string(), 1)])],
        variants: vec![],
        structs: vec![
            ("Point".to_string(), vec![("X".to_string(), ty("i32")), ("Y".to_string(), ty("i32"))]),
            (
                "Thing".to_string(),
                vec![
                    ("Mode".to_string(), ty("Mode")),
                    ("Pts".to_string(), BrdbStructPropRaw::FlatArray("Point".to_string())),
                    ("Tags".to_string(), BrdbStructPropRaw::Array("u8".to_string())),
                ],
            ),
        ],
    };
    let bytes = [1u8, 0xc4, 8, 1, 0, 0, 0, 0xfe, 0xff, 0xff, 0xff, 0x92, 1, 0xcc, 200, 0x42];
    let mut b: &[u8] = &bytes;
    let v = read_type(&schema, 0, "Thing", &mut b).unwrap();
    assert_eq!(b, &[0x42]);
    match v {
        ReadValue::Struct(name, fs) => {
            assert_eq!(name, "Thing");
            assert!(matches!(fs[0].1, ReadValue::Enum(1)));
            match &fs[1].1 {
                ReadValue::FlatArray(pts) => match &pts[0] {
                    ReadValue::Struct(n, p) => {
                        assert_eq!(n, "Point");
                        assert!(matches!(p[0].1, ReadValue::I32(1)));
                        assert!(matches!(p[1].1, ReadValue::I32(-2)));
                    },
                    other => panic!("unexpected {other:?}"),
                },
                other => panic!("unexpected {other:?}"),
            }
            match &fs[2].1 {
                ReadValue::Array(t) => {
                    assert!(matches!(t[0], ReadValue::U8(1)));
                    assert!(matches!(t[1], ReadValue::U8(200)));
                },
                other => panic!("unexpected {other:?}"),
            }
        },
        other => panic!("unexpected {other:?}"),
    }
    assert!(matches!(read(&schema, "Mode", &[2]), Err(BrdbSchemaError::EnumIndexOutOfBounds(n, 2)) if n == "Mode"));
    assert!(matches!(read(&schema, "Nope", &[0]), Err(BrdbSchemaError::UnknownType(n)) if n == "Nope"));
    // a name the schema knows that is neither a struct nor an enum
    assert!(matches!(read(&schema, "X", &[0]), Err(BrdbSchemaError::UnknownSchemaType(n)) if n == "X"));
    // flat data that is not a whole number of points
    assert!(matches!(
        read(&schema, "Thing", &[0, 0xc4, 3, 0, 0, 0]),
        Err(BrdbSchemaError::InvalidFlatDataSize(t, 3, 8)) if t == "Point"
    ));
    assert!(matches!(read(&schema, "class", &[3]), Err(BrdbSchemaError::UnknownAsset(t, 3)) if t == "class"));
    let mut b: &[u8] = &[3];
    assert!(matches!(read_type(&schema, 4, "object", &mut b), Ok(ReadValue::Asset(Some(3)))));
    assert!(matches!(read(&schema, "wire_graph_variant", &[7]), Err(BrdbSchemaError::UnknownWireVariant(7))));
    assert!(matches!(read(&schema, "f32", &[0xca, 0x3f, 0x00, 0x00, 0x00]), Ok(ReadValue::F32(StoredNum::F32Bits(0x3f000000)))));
    assert!(matches!(read(&schema, "f64", &[0xd2, 0xff, 0xff, 0xff, 0xfe]), Ok(ReadValue::F64(StoredNum::Int(-2)))));
}

#[test]
fn scalar_struct_reads_back_as_written() {
    let schema = SchemaModel {
        enums: vec![],
        variants: vec![],
        structs: vec![(
            "Header".to_string(),
            vec![
                ("On".to_string(), ty("bool")),
                ("Count".to_string(), ty("u32")),
                ("Delta".to_string(), ty("i16")),
            ],
        )],
    };
    let v = ValueModel::Struct(vec![
        ("On".to_string(), ValueModel::Bool(true)),
        ("Count".to_string(), ValueModel::U32(70000)),
        ("Delta".to_string(), ValueModel::I16(-300)),
    ]);
    let mut buf = Vec::new();
    write_brdb(&schema, &mut buf, "Header", &v).unwrap();
    buf.push(0x99);
    let mut b: &[u8] = &buf;
    match read_type(&schema, 0, "Header", &mut b).unwrap() {
        ReadValue::Struct(name, fs) => {
            assert_eq!(name, "Header");
            assert_eq!(fs.len(), 3);
            assert!(matches!(fs[0].1, ReadValue::Bool(true)));
            assert!(matches!(fs[1].1, ReadValue::U32(70000)));
            assert!(matches!(fs[2].1, ReadValue::I16(-300)));
        },
        other => panic!("unexpected {other:?}"),
    }
    assert_eq!(b, &[0x99]);
}

fn s(x: &str) -> String {
    x.to_string()
}

#[test]
fn nested_struct_with_arrays_and_defaults_reads_back() {
    let schema = SchemaModel {
        enums: vec![(s("Hue"), vec![(s("Red"), 0), (s("Blue"), 1)])],
        variants: vec![],
        structs: vec![
            (s("Inner"), vec![(s("A"), ty("u16")), (s("Tags"), BrdbStructPropRaw::Array(s("str")))]),
            (
                s("Outer"),
                vec![
                    (s("In"), ty("Inner")),
                    (s("Items"), BrdbStructPropRaw::Array(s("Inner"))),
                    (s("Missing"), ty("i32")),
                    (s("Hue"), ty("Hue")),
                    (s("Name"), ty("str")),
                ],
            ),
        ],
    };
    let inner = ValueModel::Struct(vec![
        (s("A"), ValueModel::U16(300)),
        (s("Tags"), ValueModel::Array(vec![ValueModel::Str(s("x")), ValueModel::Str(s("yz"))])),
    ]);
    let item = ValueModel::Struct(vec![(s("A"), ValueModel::U16(1))]);
    let outer = ValueModel::Struct(vec![
        (s("Name"), ValueModel::Str(s("n"))),
        (s("In"), inner),
        (s("Items"), ValueModel::Array(vec![item])),
        (s("Hue"), ValueModel::Enum(1)),
    ]);
    let mut buf = Vec::new();
    write_brdb(&schema, &mut buf, "Outer", &outer).unwrap();
    buf.push(0x42);
    let mut b: &[u8] = &buf;
    let val = read_type(&schema, 0, "Outer", &mut b).unwrap();
    assert_eq!(b, &[0x42]);
    let ReadValue::Struct(name, fields) = val else { panic!("not a struct") };
    assert_eq!(name, "Outer");
    let names: Vec<&str> = fields.iter().map(|f| f.0.as_str()).collect();
    assert_eq!(names, vec!["In", "Items", "Missing", "Hue", "Name"]);
    let ReadValue::Struct(_, inner_fields) = &fields[0].1 else { panic!("inner") };
    assert!(matches!(inner_fields[0].1, ReadValue::U16(300)));
    let ReadValue::Array(tags) = &inner_fields[1].1 else { panic!("tags") };
    assert!(matches!(&tags[..], [ReadValue::Str(a), ReadValue::Str(b)] if a == "x" && b == "yz"));
    let ReadValue::Array(items) = &fields[1].1 else { panic!("items") };
    assert_eq!(items.len(), 1);
    let ReadValue::Struct(_, item_fields) = &items[0] else { panic!("item") };
    assert!(matches!(item_fields[0].1, ReadValue::U16(1)));
    assert!(matches!(&item_fields[1].1, ReadValue::Array(t) if t.is_empty()));
    assert!(matches!(fields[2].1, ReadValue::I32(0)));
    assert!(matches!(fields[3].1, ReadValue::Enum(1)));
    assert!(matches!(&fields[4].1, ReadValue::Str(n) if n == "n"));
}

#[test]
fn zero_values_of_a_nested_struct_read_back() {
    let schema = SchemaModel {
        enums: vec![(s("Hue"), vec![(s("Red"), 0), (s("Blue"), 1)])],
        variants: vec![(s("Num"), vec![s("f64"), s("i64")])],
        structs: vec![
            (s("Inner"), vec![(s("A"), ty("u16")), (s("Tags"), BrdbStructPropRaw::Array(s("str")))]),
            (
                s("Outer"),
                vec![(s("In"), ty("Inner")), (s("Hue"), ty("Hue")), (s("N"), ty("Num")), (s("Name"), ty("str"))],
            ),
        ],
    };
    let mut buf = Vec::new();
    write_brdb_zero(&schema, &mut buf, "Outer").unwrap();
    let mut b: &[u8] = &buf;
    let val = read_type(&schema, 0, "Outer", &mut b).unwrap();
    assert!(b.is_empty());
    let ReadValue::Struct(_, fields) = val else { panic!("not a struct") };
    let ReadValue::Struct(_, inner) = &fields[0].1 else { panic!("inner") };
    assert!(matches!(inner[0].1, ReadValue::U16(0)));
    assert!(matches!(&inner[1].1, ReadValue::Array(t) if t.is_empty()));
    assert!(matches!(fields[1].1, ReadValue::Enum(0)));
    assert!(matches!(fields[2].1, ReadValue::F64(StoredNum::Int(0))));
    assert!(matches!(&fields[3].1, ReadValue::Str(n) if n.is_empty()));
}

#[test]
fn flat_arrays_of_numbers_read_back() {
    let schema = SchemaModel {
        enums: vec![],
        variants: vec![],
        structs: vec![(
            s("Chunk"),
            vec![
                (s("Ids"), BrdbStructPropRaw::FlatArray(s("u32"))),
                (s("Offsets"), BrdbStructPropRaw::FlatArray(s("i16"))),
                (s("Unset"), BrdbStructPropRaw::FlatArray(s("u8"))),
            ],
        )],
    };
    let v = ValueModel::Struct(vec![
        (s("Ids"), ValueModel::FlatArray(vec![ValueModel::U32(7), ValueModel::U32(70000)])),
        (s("Offsets"), ValueModel::Array(vec![ValueModel::I16(-2)])),
    ]);
    let mut buf = Vec::new();
    write_brdb(&schema, &mut buf, "Chunk", &v).unwrap();
    let mut b: &[u8] = &buf;
    let val = read_type(&schema, 0, "Chunk", &mut b).unwrap();
    assert!(b.is_empty());
    let ReadValue::Struct(_, fields) = val else { panic!("not a struct") };
    assert!(matches!(&fields[0].1, ReadValue::FlatArray(x) if matches!(&x[..], [ReadValue::U32(7), ReadValue::U32(70000)])));
    assert!(matches!(&fields[1].1, ReadValue::FlatArray(x) if matches!(&x[..], [ReadValue::I16(-2)])));
    assert!(matches!(&fields[2].1, ReadValue::FlatArray(x) if x.is_empty()));
}
