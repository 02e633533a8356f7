use brdb::errors::BrdbSchemaError;
use brdb::schema_meta::{read_int, read_owned_str, read_to_meta, BrdbStructPropRaw};

fn s(buf: &mut Vec<u8>, v: &str) {
    rmp::encode::write_str(buf, v).unwrap();
}

fn sample(header: u32) -> Vec<u8> {
    let mut b = Vec::new();
    rmp::encode::write_array_len(&mut b, header).unwrap();
    // enums
    rmp::encode::write_map_len(&mut b, 1).unwrap();
    s(&mut b, "EColor");
    rmp::encode::write_map_len(&mut b, 3).unwrap();
    s(&mut b, "Red");
    rmp::encode::write_sint(&mut b, 0).unwrap();
    s(&mut b, "Minus");
    rmp::encode::write_sint(&mut b, -5).unwrap();
    s(&mut b, "Big");
    rmp::encode::write_uint(&mut b, 70000).unwrap();
    if header == 3 {
        rmp::encode::write_map_len(&mut b, 1).unwrap();
        s(&mut b, "WireGraphVariant");
        rmp::encode::write_array_len(&mut b, 2).unwrap();
        s(&mut b, "bool");
        s(&mut b, "f64");
    }
    // structs
    rmp::encode::write_map_len(&mut b, 1).unwrap();
    s(&mut b, "Thing");
    rmp::encode::write_map_len(&mut b, 4).unwrap();
    s(&mut b, "Count");
    s(&mut b, "u32");
    s(&mut b, "Items");
    rmp::encode::write_array_len(&mut b, 1).unwrap();
    s(&mut b, "u8");
    s(&mut b, "Flat");
    rmp::encode::write_array_len(&mut b, 2).unwrap();
    s(&mut b, "Vector");
    rmp::encode::write_nil(&mut b).unwrap();
    s(&mut b, "Lookup");
    rmp::encode::write_map_len(&mut b, 1).unwrap();
    s(&mut b, "str");
    s(&mut b, "i64");
    b.push(0xff);
    b
}

#[test]
fn schema_meta_with_variants() {
    let bytes = sample(3);
    let mut r: &[u8] = &bytes;
    let (enums, variants, structs) = read_to_meta(&mut r).unwrap();
    assert_eq!(r, &[0xff]);
    assert_eq!(enums.len(), 1);
    assert_eq!(enums[0].0, "EColor");
    assert_eq!(
        enums[0].1,
        vec![("Red".to_string(), 0), ("Minus".to_string(), -5), ("Big".to_string(), 70000)]
    );
    assert_eq!(variants, vec![("WireGraphVariant".to_string(), vec!["bool".to_string(), "f64".to_string()])]);
    assert_eq!(structs.len(), 1);
    assert_eq!(structs[0].0, "Thing");
    assert_eq!(
        structs[0].1,
        vec![
            ("Count".to_string(), BrdbStructPropRaw::Type("u32".to_string())),
            ("Items".to_string(), BrdbStructPropRaw::Array("u8".to_string())),
            ("Flat".to_string(), BrdbStructPropRaw::FlatArray("Vector".to_string())),
            ("Lookup".to_string(), BrdbStructPropRaw::MapOf("str".to_string(), "i64".to_string())),
        ]
    );
}

#[test]
fn schema_meta_without_variants() {
    let bytes = sample(2);
    let mut r: &[u8] = &bytes;
    let (enums, variants, structs) = read_to_meta(&mut r).unwrap();
    assert_eq!(enums.len(), 1);
    assert!(variants.is_empty());
    assert_eq!(structs[0].1.len(), 4);
}

#[test]
fn schema_meta_rejects_bad_header() {
    let mut b = Vec::new();
    rmp::encode::write_array_len(&mut b, 4).unwrap();
    let mut r: &[u8] = &b;
    assert_eq!(read_to_meta(&mut r).unwrap_err(), BrdbSchemaError::InvalidHeader(4));
    let mut r: &[u8] = &[0x01];
    assert_eq!(read_to_meta(&mut r).unwrap_err(), BrdbSchemaError::RmpValueReadError);
}

#[test]
fn schema_meta_rejects_unsupported_properties() {
    for (marker, msg) in [
        (0x90u8, "0 length FixArray marker not supported"),
        (0x83, "FixMap with length != 1 is not supported"),
        (0xc3, "Unsupported property type marker"),
    ] {
        let mut b = Vec::new();
        rmp::encode::write_array_len(&mut b, 2).unwrap();
        rmp::encode::write_map_len(&mut b, 0).unwrap();
        rmp::encode::write_map_len(&mut b, 1).unwrap();
        s(&mut b, "S");
        rmp::encode::write_map_len(&mut b, 1).unwrap();
        s(&mut b, "p");
        b.push(marker);
        let mut r: &[u8] = &b;
        assert_eq!(read_to_meta(&mut r).unwrap_err(), BrdbSchemaError::InvalidSchema(msg.to_string()));
    }
}

#[test]
fn msgpack_ints_and_strings() {
    let mut b = Vec::new();
    rmp::encode::write_sint(&mut b, -100).unwrap();
    rmp::encode::write_uint(&mut b, u64::MAX).unwrap();
    rmp::encode::write_i32(&mut b, -70000).unwrap();
    rmp::encode::write_str(&mut b, "héllo").unwrap();
    let mut r: &[u8] = &b;
    assert_eq!(read_int(&mut r).unwrap(), -100);
    assert_eq!(read_int(&mut r).unwrap(), -1);
    assert_eq!(read_int(&mut r).unwrap(), -70000);
    assert_eq!(read_owned_str(&mut r).unwrap(), "héllo");
    assert!(r.is_empty());
    let mut r: &[u8] = &[0xc0];
    assert_eq!(read_int(&mut r).unwrap_err(), BrdbSchemaError::RmpMarkerReadError);
    let mut r: &[u8] = &[0xcd, 1];
    assert_eq!(read_int(&mut r).unwrap_err(), BrdbSchemaError::RmpValueReadError);
}
