use jt808::protocol::{unwrap, wrap};

#[test]
fn test_real_data() {
    let mut dst: Vec<u8> = vec![0; 128];
    dst.clear();
    let src: Vec<u8> = vec![0x7e, 0x81, 0x04, 0x00, 0x00, 0x33, 0x33, 0x33, 0x33, 0x30, 0x01, 0x00, 0x21, 0x95, 0x7e];
    let raw: Vec<u8> = vec![0x81, 0x04, 0x00, 0x00, 0x33, 0x33, 0x33, 0x33, 0x30, 0x01, 0x00, 0x21];

    // wrapping
    let result = wrap(&raw, &mut dst);
    assert_eq!(result, src.len());
    for i in 0..src.len() {
        if dst[i] != src[i] {
            println!("mismatch at {} expected {:02X} got {:02X}", i, src[i], dst[i]);
        }
        assert!(dst[i] == src[i]);
    }

    // unwrapping
    dst.clear();
    let result: usize = unwrap(&src, &mut dst);
    assert_eq!(result, raw.len());
    for i in 0..raw.len() {
        if dst[i] != raw[i] {
            println!("mismatch at {} expected {:02X} got {:02X}", i, raw[i], dst[i]);
        }
        assert!(dst[i] == raw[i]);
    }

    // one more
    dst.clear();
    let raw: Vec<u8> = vec![0x81, 0x7E, 0x7D, 0x21];
    let result = wrap(&raw, &mut dst);
    assert_eq!(result, 9);
    assert!(dst[7] == 0xA3);

    let raw = vec![0x7E, 0x81, 0x7D, 0x02, 0x7D, 0x01, 0x21, 0xA3, 0x7E];
    for i in 0..raw.len() {
        if dst[i] != raw[i] {
            println!("mismatch at {} expected {:02X} got {:02X}", i, raw[i], dst[i]);
        }
        assert!(dst[i] == raw[i]);
    }
}

#[test]
fn test_wrap() {
    let mut dst: Vec<u8> = vec![0; 128];

    // nothing to escape
    let src: Vec<u8> = vec![0x12, 0x34, 0x56, 0x78];
    dst.clear();
    let result: usize = wrap(&src, &mut dst);
    assert_eq!(result, 7);
    assert_eq!(dst[0], 0x7E);
    assert_eq!(dst[1], 0x12);
    assert_eq!(dst[2], 0x34);
    assert_eq!(dst[3], 0x56);
    assert_eq!(dst[4], 0x78);
    assert_eq!(dst[6], 0x7E);

    // a 0x7E to escape
    let src: Vec<u8> = vec![0x12, 0x34, 0x56, 0x78, 0x7E, 0x12];
    dst.clear();
    let result: usize = wrap(&src, &mut dst);
    assert_eq!(result, 10);
    assert_eq!(dst[0], 0x7E);
    assert_eq!(dst[1], 0x12);
    assert_eq!(dst[2], 0x34);
    assert_eq!(dst[3], 0x56);
    assert_eq!(dst[4], 0x78);
    assert_eq!(dst[5], 0x7D);
    assert_eq!(dst[6], 0x02);
    assert_eq!(dst[7], 0x12);
    assert_eq!(dst[9], 0x7E);

    // a 0x7D to escape
    let src: Vec<u8> = vec![0x12, 0x34, 0x56, 0x78, 0x7D, 0x12];
    dst.clear();
    let result: usize = wrap(&src, &mut dst);
    assert_eq!(result, 10);
    assert_eq!(dst[0], 0x7E);
    assert_eq!(dst[1], 0x12);
    assert_eq!(dst[2], 0x34);
    assert_eq!(dst[3], 0x56);
    assert_eq!(dst[4], 0x78);
    assert_eq!(dst[5], 0x7D);
    assert_eq!(dst[6], 0x01);
    assert_eq!(dst[7], 0x12);
    assert_eq!(dst[9], 0x7E);

    // both 0x7E and 0x7D
    let src: Vec<u8> = vec![0x30, 0x7E, 0x08, 0x7D];
    dst.clear();
    let result: usize = wrap(&src, &mut dst);
    assert_eq!(result, 9);
    assert_eq!(dst[0], 0x7E);
    assert_eq!(dst[1], 0x30);
    assert_eq!(dst[2], 0x7D);
    assert_eq!(dst[3], 0x02);
    assert_eq!(dst[4], 0x08);
    assert_eq!(dst[5], 0x7D);
    assert_eq!(dst[6], 0x01);
    assert_eq!(dst[8], 0x7E);
}
