use jt808::message::Base as RawBase;
use jt808::model::base::{Base, MsgInto, MsgMeta};
use jt808::protocol::{unwrap, wrap};

fn framed(payload: &Vec<u8>) -> Vec<u8> {
    let mut out: Vec<u8> = Vec::new();
    let n = wrap(payload, &mut out);
    assert_eq!(n, out.len());
    out
}

#[test]
fn wrap_appends_after_existing_bytes() {
    let mut dst: Vec<u8> = vec![0xAA, 0xBB];
    let n = wrap(&vec![0x01, 0x02], &mut dst);
    assert_eq!(n, 5);
    assert_eq!(dst, vec![0xAA, 0xBB, 0x7E, 0x01, 0x02, 0x03, 0x7E]);
}

#[test]
fn wrap_empty_payload() {
    let mut dst: Vec<u8> = Vec::new();
    assert_eq!(wrap(&Vec::new(), &mut dst), 3);
    assert_eq!(dst, vec![0x7E, 0x00, 0x7E]);
}

#[test]
fn wrap_check_code_is_not_escaped() {
    // 0x31 ^ 0x4F == 0x7E: the check code is written as is.
    let mut dst: Vec<u8> = Vec::new();
    assert_eq!(wrap(&vec![0x31, 0x4F], &mut dst), 5);
    assert_eq!(dst, vec![0x7E, 0x31, 0x4F, 0x7E, 0x7E]);
}

#[test]
fn wrap_length_counts_escapes() {
    let payload: Vec<u8> = vec![0x7E, 0x7D, 0x7E, 0x00, 0x7D];
    let f = framed(&payload);
    assert_eq!(f.len(), payload.len() + 4 + 3);
    // transparency: no flag between the opening flag and the check code
    for b in &f[1..f.len() - 2] {
        assert_ne!(*b, 0x7E);
    }
}

#[test]
fn unwrap_of_wrap_gives_payload_back() {
    let payloads: Vec<Vec<u8>> = vec![
        vec![0x00],
        vec![0x7E],
        vec![0x7D],
        vec![0x7D, 0x02],
        vec![0x31, 0x4F],
        vec![0x7E, 0x7D, 0x7E, 0x00, 0x7D, 0x01, 0x02],
        (0..=255u8).collect(),
    ];
    for p in payloads {
        let f = framed(&p);
        let mut dst: Vec<u8> = vec![0x55];
        let n = unwrap(&f, &mut dst);
        assert_eq!(n, p.len());
        assert_eq!(dst[0], 0x55);
        assert_eq!(dst[1..].to_vec(), p);
    }
}

#[test]
fn unwrap_of_wrap_of_empty_payload() {
    let f = framed(&Vec::new());
    let mut dst: Vec<u8> = Vec::new();
    assert_eq!(unwrap(&f, &mut dst), 0);
    assert!(dst.is_empty());
}

#[test]
fn unwrap_refuses_short_input() {
    let mut dst: Vec<u8> = vec![1];
    assert_eq!(unwrap(&vec![0x7E, 0x01, 0x7E], &mut dst), 0);
    assert_eq!(dst, vec![1]);
}

#[test]
fn unwrap_refuses_missing_flags() {
    let mut dst: Vec<u8> = Vec::new();
    assert_eq!(unwrap(&vec![0x7F, 0x01, 0x01, 0x7E], &mut dst), 0);
    assert_eq!(unwrap(&vec![0x7E, 0x01, 0x01, 0x7F], &mut dst), 0);
    assert!(dst.is_empty());
}

#[test]
fn unwrap_invalid_escape_keeps_decoded_prefix() {
    let mut dst: Vec<u8> = Vec::new();
    let n = unwrap(&vec![0x7E, 0x31, 0x7D, 0x03, 0x00, 0x7E], &mut dst);
    assert_eq!(n, 0);
    assert_eq!(dst, vec![0x31]);
}

#[test]
fn unwrap_does_not_compare_check_code() {
    let mut dst: Vec<u8> = Vec::new();
    assert_eq!(unwrap(&vec![0x7E, 0x41, 0x42, 0x00, 0x7E], &mut dst), 2);
    assert_eq!(dst, vec![0x41, 0x42]);
}

#[test]
fn unwrap_escape_may_take_last_body_byte() {
    let mut dst: Vec<u8> = Vec::new();
    assert_eq!(unwrap(&vec![0x7E, 0x41, 0x7D, 0x02, 0x7E], &mut dst), 2);
    assert_eq!(dst, vec![0x41, 0x7E]);
}

#[test]
fn unwrap_accepts_flag_inside_body() {
    let mut dst: Vec<u8> = Vec::new();
    assert_eq!(unwrap(&vec![0x7E, 0x41, 0x7E, 0x00, 0x7E], &mut dst), 2);
    assert_eq!(dst, vec![0x41, 0x7E]);
}

fn sample(version: u8, mpkg: bool, codec: u8, body: Vec<u8>) -> Base {
    Base { meta: MsgMeta { msgtp: 0x8104, version, mpkg, codec }, body }
}

#[test]
fn base_into2vec_exact_bytes() {
    let b = sample(1, true, 1, vec![0x7E]);
    let mut dst: Vec<u8> = vec![0x00];
    let n = b.into2vec(&mut dst);
    assert_eq!(n, dst.len());
    // header 81 04 64 01, body 7E; check code 81^04^64^01^7E = 9E
    assert_eq!(dst, vec![0x00, 0x7E, 0x81, 0x04, 0x64, 0x01, 0x7D, 0x02, 0x9E, 0x7E]);
}

#[test]
fn base_round_trip() {
    for version in 0..=1u8 {
        for codec in 0..=1u8 {
            for mpkg in [false, true] {
                let b = sample(version, mpkg, codec, vec![0x7E, 0x7D, 0x00, 0xFF]);
                let mut dst: Vec<u8> = Vec::new();
                b.into2vec(&mut dst);
                let back = Base::try_from(dst).unwrap();
                assert_eq!(back, b);
            }
        }
    }
}

#[test]
fn base_round_trip_fails_for_long_body() {
    // a body of 1024 bytes sets the bit that encodes RSA
    let b = sample(1, false, 0, vec![0; 1024]);
    let mut dst: Vec<u8> = Vec::new();
    b.into2vec(&mut dst);
    let back = Base::try_from(dst).unwrap();
    assert_eq!(back.meta.codec, 1);
    assert_eq!(back.body, b.body);
}

#[test]
fn base_version_is_one_bit() {
    let b = sample(5, false, 0, vec![]);
    let mut dst: Vec<u8> = Vec::new();
    b.into2vec(&mut dst);
    assert_eq!(Base::try_from(dst).unwrap().meta.version, 1);
}

#[test]
fn base_try_from_errors() {
    assert_eq!(Base::try_from(vec![0x7E, 0x7E]), Err("invalid base message, length less than 4"));
    assert_eq!(
        Base::try_from(vec![0x00, 0x01, 0x02, 0x03, 0x04, 0x05]),
        Err("invalid base message, data invaild")
    );
    assert_eq!(
        Base::try_from(vec![0x7E, 0x01, 0x02, 0x03, 0x7D, 0x05, 0x00, 0x7E]),
        Err("invalid base message, data invaild")
    );
}

#[test]
fn base_try_from_reads_header_fields() {
    // payload 12 34 64 AA BB: version 1, split, RSA
    let frame = framed(&vec![0x12, 0x34, 0x64, 0xAA, 0xBB]);
    let b = Base::try_from(frame).unwrap();
    assert_eq!(b.meta, MsgMeta { msgtp: 0x1234, version: 1, mpkg: true, codec: 1 });
    assert_eq!(b.body, vec![0xBB]);
}

#[test]
fn raw_base_encode_default() {
    let b = RawBase::default();
    let mut dst: Vec<u8> = Vec::new();
    assert_eq!(b.encode(&mut dst), 2);
    assert_eq!(dst, vec![0, 0, 0, 0]);
}

#[test]
fn raw_base_decode_then_encode() {
    let b = RawBase::decode(&vec![0x12, 0x34, 0x64, 0xAA]);
    let mut dst: Vec<u8> = Vec::new();
    assert_eq!(b.encode(&mut dst), 3);
    // the id's high byte is written twice; the body starts after three bytes
    assert_eq!(dst, vec![0x12, 0x12, 0x64, 0x01, 0xAA]);
    assert_eq!(RawBase::decode(&vec![0, 0, 0]), RawBase::default());
}
