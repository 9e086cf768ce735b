//! Tests of the wire primitives: varints, zigzag, fixed-width values, tags
//! and length-delimited framing.

use prost::error::DecodeError;
use prost::wire::{
    decode_fixed32, decode_fixed64, decode_len_prefix, decode_tag, decode_varint, encode_fixed32,
    encode_fixed64, encode_len_delimited, encode_tag, encode_varint, encoded_len_varint,
    zigzag_decode32, zigzag_decode64, zigzag_encode32, zigzag_encode64, WireType,
};

fn varint(n: u64) -> Vec<u8> {
    let mut buf = Vec::new();
    encode_varint(n, &mut buf);
    buf
}

#[test]
fn varint_encodes_exact_bytes() {
    assert_eq!(varint(0), vec![0x00]);
    assert_eq!(varint(1), vec![0x01]);
    assert_eq!(varint(127), vec![0x7f]);
    assert_eq!(varint(128), vec![0x80, 0x01]);
    assert_eq!(varint(300), vec![0xac, 0x02]);
    assert_eq!(
        varint(u64::MAX),
        vec![0xff, 0xff, 0xff, 0xff, 0xff, 0xff, 0xff, 0xff, 0xff, 0x01]
    );
}

#[test]
fn varint_round_trips() {
    for &n in &[0u64, 1, 127, 128, 300, 16383, 16384, u64::MAX / 2, u64::MAX] {
        let buf = varint(n);
        assert_eq!(encoded_len_varint(n), buf.len());
        assert_eq!(decode_varint(&buf, 0), Ok((n, buf.len())));
    }
}

#[test]
fn varint_ten_continuation_bytes_overflow() {
    let buf = [0x80u8; 10];
    assert_eq!(decode_varint(&buf, 0), Err(DecodeError::VarintOverflow));
}

#[test]
fn varint_empty_buffer_truncated() {
    let buf: [u8; 0] = [];
    assert_eq!(decode_varint(&buf, 0), Err(DecodeError::Truncated));
}

#[test]
fn varint_unterminated_short_buffer_truncated() {
    let buf = [0x80u8, 0x80, 0x80];
    assert_eq!(decode_varint(&buf, 0), Err(DecodeError::Truncated));
}

#[test]
fn varint_tenth_byte_payload_overflow() {
    let mut buf = vec![0x80u8; 9];
    buf.push(0x02);
    assert_eq!(decode_varint(&buf, 0), Err(DecodeError::VarintOverflow));
    let mut ok = vec![0x80u8; 9];
    ok.push(0x01);
    assert_eq!(decode_varint(&ok, 0), Ok((1u64 << 63, 10)));
}

#[test]
fn zigzag_maps_small_magnitudes() {
    assert_eq!(zigzag_encode64(0), 0);
    assert_eq!(zigzag_encode64(-1), 1);
    assert_eq!(zigzag_encode64(1), 2);
    assert_eq!(zigzag_encode64(-2), 3);
    assert_eq!(zigzag_encode32(-1), 1);
    assert_eq!(zigzag_encode32(2147483647), 4294967294);
    assert_eq!(zigzag_encode32(-2147483648), 4294967295);
}

#[test]
fn zigzag_round_trips_extremes() {
    for &n in &[0i64, 1, -1, i64::MIN, i64::MAX] {
        assert_eq!(zigzag_decode64(zigzag_encode64(n)), n);
    }
    for &n in &[0i32, 1, -1, i32::MIN, i32::MAX] {
        assert_eq!(zigzag_decode32(zigzag_encode32(n)), n);
    }
}

#[test]
fn fixed_width_little_endian() {
    let mut buf = Vec::new();
    encode_fixed32(0x12345678, &mut buf);
    assert_eq!(buf, vec![0x78, 0x56, 0x34, 0x12]);
    assert_eq!(decode_fixed32(&buf, 0), Ok((0x12345678, 4)));

    let mut buf8 = Vec::new();
    encode_fixed64(0x0102030405060708, &mut buf8);
    assert_eq!(buf8, vec![0x08, 0x07, 0x06, 0x05, 0x04, 0x03, 0x02, 0x01]);
    assert_eq!(decode_fixed64(&buf8, 0), Ok((0x0102030405060708, 8)));
}

#[test]
fn fixed_width_truncated() {
    assert_eq!(decode_fixed32(&[1, 2, 3], 0), Err(DecodeError::Truncated));
    assert_eq!(
        decode_fixed64(&[1, 2, 3, 4, 5, 6, 7], 0),
        Err(DecodeError::Truncated)
    );
}

#[test]
fn tags_pack_field_number_and_wire_type() {
    let mut buf = Vec::new();
    encode_tag(1, WireType::Varint, &mut buf);
    assert_eq!(buf, vec![0x08]);
    assert_eq!(decode_tag(&buf, 0), Ok(((1, WireType::Varint), 1)));

    let mut buf2 = Vec::new();
    encode_tag(16, WireType::LengthDelimited, &mut buf2);
    assert_eq!(buf2, vec![0x82, 0x01]);
    assert_eq!(
        decode_tag(&buf2, 0),
        Ok(((16, WireType::LengthDelimited), 2))
    );
}

#[test]
fn tag_with_unsupported_wire_code_rejected() {
    // Field 1 with wire-type code 3 (group start), unsupported here.
    assert_eq!(
        decode_tag(&[0x0b], 0),
        Err(DecodeError::UnexpectedWireType)
    );
    // Field number 0 is not a legal tag.
    assert_eq!(
        decode_tag(&[0x00], 0),
        Err(DecodeError::UnexpectedWireType)
    );
}

#[test]
fn length_delimited_framing() {
    let mut buf = Vec::new();
    encode_len_delimited(b"abc", &mut buf);
    assert_eq!(buf, vec![0x03, b'a', b'b', b'c']);
    assert_eq!(decode_len_prefix(&buf, 0), Ok((1, 4)));
}

#[test]
fn length_prefix_announcing_too_much_truncated() {
    assert_eq!(
        decode_len_prefix(&[0x05, 0x01], 0),
        Err(DecodeError::Truncated)
    );
}
