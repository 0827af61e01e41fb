use rimecraft_core::packet::{Decode, DecodeInPlace, DecodeSeed, Encode, PacketError};
use rimecraft_core::varint::{VarIntError, Variable};

#[test]
fn var_long() {
    let mut buf_mut: Vec<u8> = Vec::new();
    const TEST_VAL: i64 = (u64::MAX - u32::MAX as u64) as i64;
    Variable(TEST_VAL).encode(&mut buf_mut).unwrap();
    let buf = buf_mut.as_slice();
    assert_eq!(Variable::<i64>::decode(buf).unwrap().0 .0, TEST_VAL);
}

#[test]
fn var_int_bytes() {
    let mut buf = Vec::new();
    Variable(300u32).encode(&mut buf).unwrap();
    assert_eq!(buf, vec![0xAC, 0x02]);
    assert_eq!(Variable::<u32>::decode(&buf), Ok((Variable(300u32), 2)));
}

#[test]
fn var_int_small_values_take_one_byte() {
    let mut buf = Vec::new();
    Variable(0u8).encode(&mut buf).unwrap();
    Variable(127u16).encode(&mut buf).unwrap();
    assert_eq!(buf, vec![0, 127]);
}

#[test]
fn var_negative_int_takes_five_bytes() {
    let mut buf = Vec::new();
    Variable(-1i32).encode(&mut buf).unwrap();
    assert_eq!(buf, vec![0xFF, 0xFF, 0xFF, 0xFF, 0x0F]);
    assert_eq!(Variable::<i32>::decode(&buf), Ok((Variable(-1i32), 5)));
}

#[test]
fn var_u64_max_roundtrip() {
    let mut buf = Vec::new();
    Variable(u64::MAX).encode(&mut buf).unwrap();
    assert_eq!(buf.len(), 10);
    assert_eq!(Variable::<u64>::decode(&buf), Ok((Variable(u64::MAX), 10)));
}

#[test]
fn var_too_large() {
    let buf = [0x80u8, 0x80, 0x80];
    assert_eq!(Variable::<u8>::decode(&buf), Err(PacketError::VarInt(VarIntError::TooLarge)));
    let buf = [0xFFu8, 0xFF, 0xFF, 0xFF, 0xFF, 0x01];
    assert_eq!(Variable::<u32>::decode(&buf), Err(PacketError::VarInt(VarIntError::TooLarge)));
}

#[test]
fn var_decode_stops_at_last_byte() {
    let buf = [0x05u8, 0x09];
    assert_eq!(Variable::<i16>::decode(&buf), Ok((Variable(5i16), 1)));
}

#[test]
fn var_overlong_last_byte_is_truncated() {
    let buf = [0xFFu8, 0x7F];
    assert_eq!(Variable::<u8>::decode(&buf), Ok((Variable(255u8), 2)));
}

#[test]
fn decode_in_place_and_by_seed() {
    let mut v = 7u16;
    assert_eq!(v.decode_in_place(&[0x01, 0x02, 0x03]), Ok(2));
    assert_eq!(v, 0x0102);
    let mut w = Variable(9u8);
    assert_eq!(
        w.decode_in_place(&[0x80, 0x80, 0x80]),
        Err(PacketError::VarInt(VarIntError::TooLarge))
    );
    assert_eq!(w, Variable(9u8));
    let seed = std::marker::PhantomData::<i32>;
    assert_eq!(seed.decode(&[0xFF, 0xFF, 0xFF, 0xFE]), Ok((-2i32, 4)));
}
