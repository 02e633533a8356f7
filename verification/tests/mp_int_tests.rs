use brdb::errors::BrdbSchemaError;
use brdb::mp_int::{read_uint, write_int, write_u8, write_uint};
use brdb::schema_meta::read_int;

#[test]
fn test_write_uint() {
    // write ints from 0 to 512
    let mut buf = Vec::new();
    for i in 0..512 {
        buf.clear();
        write_uint(&mut buf, i).unwrap();
    }
}

#[test]
fn test_write_u8() {
    // write ints from 0 to 512
    let mut buf = Vec::new();
    for i in 0..256 {
        buf.clear();
        write_u8(&mut buf, i).unwrap();
    }
}

#[test]
fn write_int_picks_the_smallest_form() {
    let cases: [(i64, Vec<u8>); 11] = [
        (5, vec![5]),
        (-1, vec![0xff]),
        (200, vec![0xcc, 200]),
        (40000, vec![0xcd, 0x9c, 0x40]),
        (70000, vec![0xce, 0, 1, 0x11, 0x70]),
        (1 << 40, vec![0xcf, 0, 0, 1, 0, 0, 0, 0, 0]),
        (-32, vec![0xe0]),
        (-33, vec![0xd0, 0xdf]),
        (-200, vec![0xd1, 0xff, 0x38]),
        (-70000, vec![0xd2, 0xff, 0xfe, 0xee, 0x90]),
        (i64::MIN, vec![0xd3, 0x80, 0, 0, 0, 0, 0, 0, 0]),
    ];
    for (v, bytes) in cases {
        let mut buf = vec![9];
        write_int(&mut buf, v).unwrap();
        assert_eq!(&buf[1..], &bytes[..], "value {v}");
    }
}

#[test]
fn written_ints_read_back() {
    for v in [0i64, 1, 127, 128, 255, 32767, 32768, -1, -31, -32, -128, -129, -32769, i32::MIN as i64, i64::MAX, i64::MIN] {
        let mut buf = Vec::new();
        write_int(&mut buf, v).unwrap();
        buf.push(0x42);
        let mut r: &[u8] = &buf;
        assert_eq!(read_int(&mut r).unwrap(), v);
        assert_eq!(r, &[0x42]);
    }
    for v in [0u64, 200, 300, 70000, u32::MAX as u64 + 1, u64::MAX] {
        let mut buf = Vec::new();
        write_uint(&mut buf, v).unwrap();
        let mut r: &[u8] = &buf;
        assert_eq!(read_int(&mut r).unwrap(), v as i64);
    }
}

#[test]
fn write_u8_uses_negative_fixints_at_the_top() {
    let mut buf = Vec::new();
    write_u8(&mut buf, 230).unwrap();
    write_u8(&mut buf, 200).unwrap();
    write_u8(&mut buf, 300).unwrap();
    assert_eq!(buf, vec![230, 0xcc, 200, 0xcc, 44]);
}

#[test]
fn bytes_and_uints_read_back_as_unsigned() {
    for v in 0u64..256 {
        let mut buf = Vec::new();
        write_u8(&mut buf, v).unwrap();
        let mut r: &[u8] = &buf;
        assert_eq!(read_uint(&mut r).unwrap(), v);
        assert!(r.is_empty());
    }
    for v in [0u64, 128, 300, 70000, u64::MAX] {
        let mut buf = Vec::new();
        write_uint(&mut buf, v).unwrap();
        let mut r: &[u8] = &buf;
        assert_eq!(read_uint(&mut r).unwrap(), v);
    }
    let mut r: &[u8] = &[0xd0, 0xff];
    assert_eq!(read_uint(&mut r).unwrap(), u64::MAX);
    let mut r: &[u8] = &[0xc3];
    assert_eq!(
        read_uint(&mut r).unwrap_err(),
        BrdbSchemaError::ExpectedType("uint".to_string(), "marker".to_string())
    );
}
