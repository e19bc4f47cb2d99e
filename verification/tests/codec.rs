use qbsdiff::decode_int;
use qbsdiff::encode_int;

#[test]
fn integer_codec_round_trip() {
    let samples: Vec<i64> = vec![
        0,
        1,
        -1,
        2,
        -2,
        255,
        -255,
        256,
        -256,
        0x1234_5678,
        -0x1234_5678,
        i64::MAX,
        -i64::MAX,
        i64::MAX - 1,
        -(i64::MAX - 1),
        987654321987654321,
        -987654321987654321,
    ];
    for &x in samples.iter() {
        let b = encode_int(x);
        assert_eq!(b.len(), 8);
        assert_eq!(decode_int(&b), x, "round trip failed for {}", x);
    }
}

#[test]
fn encoding_is_little_endian_magnitude() {
    assert_eq!(encode_int(1), vec![1, 0, 0, 0, 0, 0, 0, 0]);
    assert_eq!(encode_int(-1), vec![1, 0, 0, 0, 0, 0, 0, 0x80]);
    assert_eq!(encode_int(0x0102), vec![2, 1, 0, 0, 0, 0, 0, 0]);
    assert_eq!(encode_int(0), vec![0, 0, 0, 0, 0, 0, 0, 0]);
}

#[test]
fn negative_zero_decodes_to_zero() {
    let b = [0u8, 0, 0, 0, 0, 0, 0, 0x80];
    assert_eq!(decode_int(&b), 0);
}

#[test]
fn decode_reads_first_eight_bytes() {
    let b = [5u8, 0, 0, 0, 0, 0, 0, 0, 99, 99, 99, 99];
    assert_eq!(decode_int(&b), 5);
}
