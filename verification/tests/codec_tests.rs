use token_ledger::codec::{
    stream_append_bytes, stream_append_u64, stream_append_variant, stream_append_varuint,
    stream_read_bytes, stream_read_u64, stream_read_variant_index, stream_read_varuint,
};

#[test]
fn u64_round_trip_zero() {
    let mut buf: Vec<u8> = Vec::new();
    stream_append_u64(0, &mut buf);
    assert_eq!(buf, vec![0, 0, 0, 0, 0, 0, 0, 0]);
    let (v, n) = stream_read_u64(&buf, 0);
    assert_eq!(v, 0);
    assert_eq!(n, 8);
}

#[test]
fn u64_little_endian_layout() {
    let mut buf: Vec<u8> = Vec::new();
    stream_append_u64(0x0123_4567_89ab_cdef, &mut buf);
    assert_eq!(buf, vec![0xef, 0xcd, 0xab, 0x89, 0x67, 0x45, 0x23, 0x01]);
    let (v, _) = stream_read_u64(&buf, 0);
    assert_eq!(v, 0x0123_4567_89ab_cdef);
}

#[test]
fn u64_round_trip_max() {
    let mut buf: Vec<u8> = Vec::new();
    stream_append_u64(u64::MAX, &mut buf);
    let (v, _) = stream_read_u64(&buf, 0);
    assert_eq!(v, u64::MAX);
}

#[test]
fn u64_round_trip_at_offset() {
    let mut buf: Vec<u8> = vec![0xaa, 0xbb];
    stream_append_u64(987_654_321_012_345, &mut buf);
    let (v, n) = stream_read_u64(&buf, 2);
    assert_eq!(v, 987_654_321_012_345);
    assert_eq!(n, 8);
}

#[test]
fn varuint_127_is_one_byte() {
    let mut buf: Vec<u8> = Vec::new();
    stream_append_varuint(127, &mut buf);
    assert_eq!(buf, vec![0x7f]);
    assert_eq!(stream_read_varuint(&buf, 0), Some((127, 1)));
}

#[test]
fn varuint_128_is_two_bytes() {
    let mut buf: Vec<u8> = Vec::new();
    stream_append_varuint(128, &mut buf);
    assert_eq!(buf, vec![0x80, 0x01]);
    assert_eq!(stream_read_varuint(&buf, 0), Some((128, 2)));
}

#[test]
fn varuint_round_trips() {
    for v in [0u64, 1, 5, 127, 128, 300, 16_383, 16_384, 1_000_000, u64::MAX] {
        let mut buf: Vec<u8> = Vec::new();
        stream_append_varuint(v, &mut buf);
        let got = stream_read_varuint(&buf, 0).expect("decodes");
        assert_eq!(got.0, v);
        assert_eq!(got.1, buf.len());
    }
}

#[test]
fn varuint_stops_at_first_clear_top_bit() {
    let buf: Vec<u8> = vec![0x85, 0x03, 0x7f];
    assert_eq!(stream_read_varuint(&buf, 0), Some((5 + 128 * 3, 2)));
}

#[test]
fn varuint_accepts_padded_zero() {
    let buf: Vec<u8> = vec![0x80, 0x00];
    assert_eq!(stream_read_varuint(&buf, 0), Some((0, 2)));
}

#[test]
fn varuint_truncated_is_rejected() {
    assert_eq!(stream_read_varuint(&Vec::new(), 0), None);
    let buf: Vec<u8> = vec![0x80, 0x80];
    assert_eq!(stream_read_varuint(&buf, 0), None);
}

#[test]
fn varuint_too_large_is_rejected() {
    // Eleven bytes of continuation hold more than 64 bits of value.
    let buf: Vec<u8> = vec![0xff, 0xff, 0xff, 0xff, 0xff, 0xff, 0xff, 0xff, 0xff, 0xff, 0x01];
    assert_eq!(stream_read_varuint(&buf, 0), None);
}

#[test]
fn byte_string_round_trip() {
    let memo: Vec<u8> = b"hello world".to_vec();
    let mut buf: Vec<u8> = Vec::new();
    stream_append_bytes(&memo, &mut buf);
    assert_eq!(buf.len(), 12);
    assert_eq!(buf[0], 11);
    let (got, consumed) = stream_read_bytes(&buf, 0).expect("decodes");
    assert_eq!(got, memo);
    assert_eq!(consumed, 12);
}

#[test]
fn byte_string_empty_round_trip() {
    let mut buf: Vec<u8> = Vec::new();
    stream_append_bytes(&Vec::new(), &mut buf);
    assert_eq!(buf, vec![0x00]);
    let (got, consumed) = stream_read_bytes(&buf, 0).expect("decodes");
    assert!(got.is_empty());
    assert_eq!(consumed, 1);
}

#[test]
fn byte_string_short_buffer_is_rejected() {
    // Announces five bytes but carries two.
    let buf: Vec<u8> = vec![0x05, 0x61, 0x62];
    assert_eq!(stream_read_bytes(&buf, 0), None);
}

#[test]
fn variant_prefix_round_trip() {
    let payload: Vec<u8> = vec![0xde, 0xad];
    let mut buf: Vec<u8> = Vec::new();
    stream_append_variant(2, &payload, &mut buf);
    assert_eq!(buf, vec![0x02, 0xde, 0xad]);
    assert_eq!(stream_read_variant_index(&buf, 0), Some((2, 1)));
}
