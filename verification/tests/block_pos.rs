use rimecraft_core::block_pos::{Axis, BlockPos, PosError, PosFields};
use rimecraft_core::packet::{Decode, Encode};

#[test]
fn i64_conv() {
    let pos = BlockPos::new(1, 2, 3);
    let l: i64 = pos.into();
    let pos2: BlockPos = l.into();
    assert_eq!(pos, pos2);
}

#[test]
fn packed_layout() {
    let l: i64 = BlockPos::new(1, 2, 3).into();
    assert_eq!(l, (1i64 << 38) | (3i64 << 12) | 2);
    let l: i64 = BlockPos::new(-1, -1, -1).into();
    assert_eq!(l, -1);
    let l: i64 = BlockPos::origin().into();
    assert_eq!(l, 0);
}

#[test]
fn negative_and_extreme_roundtrip() {
    for (x, y, z) in [
        (-33_554_432, -2048, -33_554_432),
        (33_554_431, 2047, 33_554_431),
        (-5, 7, -30_000_000),
    ] {
        let pos = BlockPos::new(x, y, z);
        let l: i64 = pos.into();
        assert_eq!(BlockPos::from(l), pos);
    }
}

#[test]
fn out_of_range_keeps_low_bits() {
    let l: i64 = BlockPos::new(0, 2048, 0).into();
    assert_eq!(BlockPos::from(l), BlockPos::new(0, -2048, 0));
}

#[test]
fn long_roundtrip() {
    for l in [0i64, -1, i64::MIN, i64::MAX, 0x1234_5678_9abc_def0] {
        let pos = BlockPos::from(l);
        let back: i64 = pos.into();
        assert_eq!(back, l);
    }
}

#[test]
fn tuple_conversions() {
    let pos: BlockPos = (4, -5, 6).into();
    assert_eq!((pos.x(), pos.y(), pos.z()), (4, -5, 6));
    let t: (i32, i32, i32) = pos.into();
    assert_eq!(t, (4, -5, 6));
}

#[test]
fn add_and_sub() {
    let a = BlockPos::new(1, 2, 3);
    let b = BlockPos::new(10, -20, 30);
    assert_eq!(a + b, BlockPos::new(11, -18, 33));
    assert_eq!(a - b, BlockPos::new(-9, 22, -27));
    let mut c = a;
    c += b;
    assert_eq!(c, BlockPos::new(11, -18, 33));
    c -= b;
    assert_eq!(c, a);
    let mut w = BlockPos::new(i32::MAX, 0, 0);
    w += BlockPos::new(1, 0, 0);
    assert_eq!(w.x(), i32::MIN);
}

#[test]
fn packet_roundtrip() {
    let pos = BlockPos::new(-7, 100, 12345);
    let mut buf = Vec::new();
    pos.encode(&mut buf).unwrap();
    assert_eq!(buf.len(), 8);
    let l: i64 = pos.into();
    assert_eq!(buf, l.to_be_bytes().to_vec());
    assert_eq!(BlockPos::decode(&buf), Ok((pos, 8)));
}

#[test]
fn from_seq() {
    assert_eq!(BlockPos::from_seq(&[1, 2, 3]), Ok(BlockPos::new(1, 2, 3)));
    assert_eq!(BlockPos::from_seq(&[1, 2, 3, 4]), Ok(BlockPos::new(1, 2, 3)));
    assert_eq!(BlockPos::from_seq(&[1]), Err(PosError::InvalidLength(1)));
    assert_eq!(BlockPos::from_seq(&[]), Err(PosError::InvalidLength(0)));
}

#[test]
fn fields() {
    let mut f = PosFields::new();
    assert_eq!(f.visit("X", 1), Ok(()));
    assert_eq!(f.visit("yaw", 2), Ok(()));
    assert_eq!(f.visit("", 99), Ok(()));
    assert_eq!(f.finish(), Err(PosError::MissingField(Axis::Z)));
    assert_eq!(f.visit("z", 3), Ok(()));
    assert_eq!(f.visit("x", 4), Ok(()));
    assert_eq!(f.finish(), Ok(BlockPos::new(4, 2, 3)));
    assert_eq!(
        f.visit("w", 5),
        Err(PosError::UnknownField("w".to_string()))
    );
    assert_eq!(PosFields::new().finish(), Err(PosError::MissingField(Axis::X)));
}
