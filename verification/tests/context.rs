use rimecraft_core::context::Nbt;

struct Cx;

#[test]
fn nbt_wraps_and_unwraps() {
    let n: Nbt<u32, Cx> = Nbt::from(7);
    assert_eq!(n.into_inner(), 7);
    let m: Nbt<String, Cx> = String::from("tag").into();
    assert_eq!(m.0, "tag");
    assert_eq!(Nbt::<u8, Cx>::new(3).into_inner(), 3);
}
