use endian_pad::endian::{
    decode, encode_sequence, Be, ByteOrder, Endian, IntegerEndianIter, IntoBeIter, IntoLeIter, Le,
    LengthMismatch,
};

fn drain(mut it: IntegerEndianIter) -> Vec<u8> {
    let mut out: Vec<u8> = Vec::new();
    while let Some(b) = it.next() {
        out.push(b);
    }
    out
}

#[test]
fn test_try_from() {
    let input = [0, 1, 2, 3];
    let le32 = Le::<u32>::try_from(input.as_ref());
    println!("{:#?}", le32);
}

#[test]
fn le_decode_exact_values() {
    assert_eq!(decode::<u32>(&[4, 3, 2, 1], ByteOrder::Little), Ok(0x0102_0304));
    assert_eq!(decode::<u16>(&[0x34, 0x12], ByteOrder::Little), Ok(0x1234));
    assert_eq!(decode::<u8>(&[0x7f], ByteOrder::Little), Ok(0x7f));
    assert_eq!(
        decode::<u64>(&[8, 7, 6, 5, 4, 3, 2, 1], ByteOrder::Little),
        Ok(0x0102_0304_0506_0708)
    );
}

#[test]
fn be_decode_exact_values() {
    assert_eq!(decode::<u32>(&[1, 2, 3, 4], ByteOrder::Big), Ok(0x0102_0304));
    assert_eq!(decode::<u16>(&[0x12, 0x34], ByteOrder::Big), Ok(0x1234));
    assert_eq!(
        decode::<u64>(&[1, 2, 3, 4, 5, 6, 7, 8], ByteOrder::Big),
        Ok(0x0102_0304_0506_0708)
    );
}

#[test]
fn signed_decode_exact_values() {
    assert_eq!(decode::<i8>(&[0xff], ByteOrder::Little), Ok(-1));
    assert_eq!(decode::<i16>(&[0xfe, 0xff], ByteOrder::Little), Ok(-2));
    assert_eq!(decode::<i32>(&[0xfe, 0xff, 0xff, 0xff], ByteOrder::Little), Ok(-2));
    assert_eq!(decode::<i32>(&[0x00, 0x00, 0x00, 0x80], ByteOrder::Little), Ok(i32::MIN));
    assert_eq!(decode::<i32>(&[0x80, 0x00, 0x00, 0x00], ByteOrder::Big), Ok(i32::MIN));
    assert_eq!(decode::<i32>(&[0xff, 0xff, 0xff, 0x7f], ByteOrder::Little), Ok(i32::MAX));
}

#[test]
fn native_decodes_as_little() {
    let bytes = [0x9a, 0x78, 0x56, 0x34];
    assert_eq!(
        decode::<u32>(&bytes, ByteOrder::Native),
        decode::<u32>(&bytes, ByteOrder::Little)
    );
    assert_eq!(decode::<u32>(&bytes, ByteOrder::Native), Ok(0x3456_789a));
}

#[test]
fn length_mismatch_on_every_wrong_length() {
    for wrong_len in [0usize, 1, 2, 3, 5, 8, 16] {
        if wrong_len == 4 {
            continue;
        }
        let bytes = vec![0u8; wrong_len];
        assert_eq!(decode::<u32>(&bytes, ByteOrder::Little), Err(LengthMismatch));
        assert_eq!(decode::<u32>(&bytes, ByteOrder::Big), Err(LengthMismatch));
        assert_eq!(decode::<u32>(&bytes, ByteOrder::Native), Err(LengthMismatch));
    }
    assert!(decode::<u32>(&[0u8; 4], ByteOrder::Little).is_ok());
    assert_eq!(decode::<u8>(&[0, 0], ByteOrder::Little), Err(LengthMismatch));
    assert_eq!(decode::<u128>(&[0u8; 15], ByteOrder::Big), Err(LengthMismatch));
    assert!(decode::<u128>(&[0u8; 16], ByteOrder::Big).is_ok());
}

#[test]
fn encode_le_exact_bytes() {
    assert_eq!(drain(0x0102_0304u32.into_leiter()), vec![4, 3, 2, 1]);
    assert_eq!(drain(0x1234u16.into_leiter()), vec![0x34, 0x12]);
    assert_eq!(drain(0xabu8.into_leiter()), vec![0xab]);
    assert_eq!(drain((-2i32).into_leiter()), vec![0xfe, 0xff, 0xff, 0xff]);
    assert_eq!(drain((-1i8).into_leiter()), vec![0xff]);
}

#[test]
fn encode_be_exact_bytes() {
    assert_eq!(drain(0x0102_0304u32.into_beiter()), vec![1, 2, 3, 4]);
    assert_eq!(drain(0x1234u16.into_beiter()), vec![0x12, 0x34]);
    assert_eq!(drain((-2i32).into_beiter()), vec![0xff, 0xff, 0xff, 0xfe]);
}

#[test]
fn encode_sequence_emits_width_bytes_then_nothing() {
    let mut it = encode_sequence(0x55aa33u32, ByteOrder::Little);
    let mut count = 0;
    while it.next().is_some() {
        count += 1;
    }
    assert_eq!(count, 4);
    assert_eq!(it.next(), None);
    assert_eq!(it.next(), None);
}

#[test]
fn unsigned_round_trips() {
    let orders = [ByteOrder::Little, ByteOrder::Big, ByteOrder::Native];
    for &order in &orders {
        for &v in &[0u8, 1, 0x7f, 0x80, 0xff] {
            let bytes = drain(encode_sequence(v, order));
            assert_eq!(decode::<u8>(&bytes, order), Ok(v));
        }
        for &v in &[0u16, 1, 0x1234, 0xffff] {
            let bytes = drain(encode_sequence(v, order));
            assert_eq!(decode::<u16>(&bytes, order), Ok(v));
        }
        for &v in &[0u32, 1, 0xdead_beef, u32::MAX] {
            let bytes = drain(encode_sequence(v, order));
            assert_eq!(decode::<u32>(&bytes, order), Ok(v));
        }
        for &v in &[0u64, 1, 0x0123_4567_89ab_cdef, u64::MAX] {
            let bytes = drain(encode_sequence(v, order));
            assert_eq!(decode::<u64>(&bytes, order), Ok(v));
        }
        for &v in &[0u128, 1, 0x0123_4567_89ab_cdef_0123_4567_89ab_cdef, u128::MAX] {
            let bytes = drain(encode_sequence(v, order));
            assert_eq!(decode::<u128>(&bytes, order), Ok(v));
        }
    }
}

#[test]
fn signed_round_trips() {
    let orders = [ByteOrder::Little, ByteOrder::Big, ByteOrder::Native];
    for &order in &orders {
        for &v in &[0i8, 1, -1, i8::MIN, i8::MAX] {
            let bytes = drain(encode_sequence(v, order));
            assert_eq!(decode::<i8>(&bytes, order), Ok(v));
        }
        for &v in &[0i16, 1, -1, -12345, i16::MIN, i16::MAX] {
            let bytes = drain(encode_sequence(v, order));
            assert_eq!(decode::<i16>(&bytes, order), Ok(v));
        }
        for &v in &[0i32, 1, -1, -0x1234_5678, i32::MIN, i32::MAX] {
            let bytes = drain(encode_sequence(v, order));
            assert_eq!(decode::<i32>(&bytes, order), Ok(v));
        }
        for &v in &[0i64, 1, -1, i64::MIN, i64::MAX] {
            let bytes = drain(encode_sequence(v, order));
            assert_eq!(decode::<i64>(&bytes, order), Ok(v));
        }
        for &v in &[0i128, 1, -1, i128::MIN, i128::MAX] {
            let bytes = drain(encode_sequence(v, order));
            assert_eq!(decode::<i128>(&bytes, order), Ok(v));
        }
    }
}

#[test]
fn tagged_wrappers_decode_and_encode() {
    let le = Le::<u32>::try_from([4u8, 3, 2, 1].as_ref());
    assert!(matches!(le, Ok(Le(0x0102_0304))));
    let be = Be::<u32>::try_from([1u8, 2, 3, 4].as_ref());
    assert!(matches!(be, Ok(Be(0x0102_0304))));

    assert_eq!(Le::<u16>::try_from([0u8; 3].as_ref()).unwrap_err(), LengthMismatch);
    assert_eq!(Be::<u16>::try_from([0u8; 1].as_ref()).unwrap_err(), LengthMismatch);

    assert_eq!(drain(Le(0x0102_0304u32).into_iter()), vec![4, 3, 2, 1]);
    assert_eq!(drain(Be(0x0102_0304u32).into_iter()), vec![1, 2, 3, 4]);
}

#[test]
fn trait_methods_decode_directly() {
    assert_eq!(u32::try_from_le_bytes(&[4, 3, 2, 1]), Ok(0x0102_0304));
    assert_eq!(u32::try_from_be_bytes(&[1, 2, 3, 4]), Ok(0x0102_0304));
    assert_eq!(i64::try_from_le_bytes(&[0xff; 8]), Ok(-1));
    assert_eq!(i128::try_from_be_bytes(&[0xff; 16]), Ok(-1));
    assert_eq!(u64::try_from_le_bytes(&[]), Err(LengthMismatch));
}
