use rimecraft_core::component::changes::ComponentChanges;
use rimecraft_core::component::{ComponentMap, ErasedComponentType};
use rimecraft_core::packet::PacketError;
use rimecraft_core::item::{
    Formatting, Item, ItemStack, Rarity, StackError, StackField, StackFields, MAX_STACK_COUNT,
};

const DAMAGE: ErasedComponentType = ErasedComponentType {
    id: 4,
    transient: false,
};

#[test]
fn rarity_formatting() {
    assert_eq!(Formatting::from(Rarity::Common), Formatting::White);
    assert_eq!(Formatting::from(Rarity::Uncommon), Formatting::Yellow);
    assert_eq!(Formatting::from(Rarity::Rare), Formatting::Aqua);
    assert_eq!(Formatting::from(Rarity::Epic), Formatting::LightPurple);
    assert_eq!(Rarity::default(), Rarity::Common);
    assert!(Rarity::Common < Rarity::Epic);
    assert_eq!(MAX_STACK_COUNT, 64);
}

#[test]
fn stacks() {
    let mut b = ComponentMap::builder();
    b.insert(DAMAGE, 0);
    let base = b.build();
    let air_base = ComponentMap::empty();
    let stone = Item::new(1, false, &base);
    let air = Item::new(0, true, &air_base);

    let stack = ItemStack::new(stone, 3);
    assert_eq!(stack.count(), 3);
    assert!(!stack.is_empty());
    assert_eq!(stack.item().raw_id(), 1);
    assert_eq!(stack.components().get_raw(DAMAGE.id), Some(0));

    assert!(ItemStack::empty(air).is_empty());
    assert!(ItemStack::new(stone, 0).is_empty());
    assert!(ItemStack::new(air, 5).is_empty());

    let one: ItemStack = stone.into();
    assert_eq!(one.count(), 1);
    let back: Item = one.into();
    assert_eq!(back.raw_id(), 1);

    let mut s = ItemStack::new(stone, 2);
    s.set_count(9);
    assert_eq!(s.count(), 9);
    s.components_mut().insert(DAMAGE, 5);
    assert_eq!(s.components().get_raw(DAMAGE.id), Some(5));
    let changes = s.serialized_changes().unwrap();
    assert_eq!(changes.get(DAMAGE.id), Some(Some(5)));
    assert_eq!(s.serialized_field_count(), 3);

    let plain = ItemStack::with_component(stone, 1, ComponentMap::empty());
    assert_eq!(plain.serialized_changes().err(), Some(StackError::NotPatched));
    assert_eq!(plain.serialized_field_count(), 3);
}

#[test]
fn stack_fields() {
    assert_eq!(StackField::from_key("id"), Ok(StackField::Id));
    assert_eq!(StackField::from_key("count"), Ok(StackField::Count));
    assert_eq!(StackField::from_key("components"), Ok(StackField::Components));
    assert_eq!(StackField::from_key("Count"), Err(StackError::UnknownField));

    let mut b = ComponentMap::builder();
    b.insert(DAMAGE, 0);
    let base = b.build();
    let stone = Item::new(1, false, &base);

    let mut f = StackFields::new();
    assert_eq!(f.visit_item(stone), Ok(()));
    assert_eq!(f.visit_item(stone), Err(StackError::DuplicateId));
    f.visit_count(4);
    f.visit_count(6);
    let mut c = ComponentChanges::builder();
    c.insert(DAMAGE, 3);
    assert_eq!(f.visit_changes(c.build()), Ok(()));
    assert_eq!(
        f.visit_changes(ComponentChanges::builder().build()),
        Err(StackError::DuplicateComponents)
    );
    let stack = f.finish().unwrap();
    assert_eq!(stack.count(), 6);
    assert_eq!(stack.components().get_raw(DAMAGE.id), Some(3));

    assert_eq!(StackFields::new().finish().err(), Some(StackError::MissingId));
    let mut f = StackFields::new();
    f.visit_item(stone).unwrap();
    assert_eq!(f.finish().err(), Some(StackError::MissingComponents));
}

fn byte_value(_ty: ErasedComponentType, v: u64) -> Result<Vec<u8>, PacketError> {
    Ok(vec![v as u8])
}

fn read_byte_value(_ty: ErasedComponentType, buf: &[u8], pos: usize) -> Result<(u64, usize), PacketError> {
    match buf.get(pos) {
        Some(&b) => Ok((b as u64, 1)),
        None => Err(PacketError::InvalidData),
    }
}

fn known_type(id: u64) -> Option<ErasedComponentType> {
    if id == DAMAGE.id {
        Some(DAMAGE)
    } else {
        None
    }
}

#[test]
fn stack_packets() {
    let mut b = ComponentMap::builder();
    b.insert(DAMAGE, 0);
    let base = b.build();
    let air_base = ComponentMap::empty();
    let stone = Item::new(7, false, &base);
    let air = Item::new(0, true, &air_base);

    let mut buf = Vec::new();
    ItemStack::empty(air).encode(&mut buf, byte_value).unwrap();
    assert_eq!(buf, vec![0]);

    let mut buf = Vec::new();
    let mut stack = ItemStack::new(stone, 3);
    stack.encode(&mut buf, byte_value).unwrap();
    // Count, item, count again in four bytes, then no changes.
    assert_eq!(buf, vec![3, 7, 0, 0, 0, 3, 0, 0]);

    stack.components_mut().insert(DAMAGE, 9);
    let mut buf = Vec::new();
    stack.encode(&mut buf, byte_value).unwrap();
    assert_eq!(buf, vec![3, 7, 0, 0, 0, 3, 1, 0, 4, 9]);

    let plain = ItemStack::with_component(stone, 2, ComponentMap::empty());
    let mut buf = Vec::new();
    assert_eq!(plain.encode(&mut buf, byte_value), Err(StackError::NotPatched));
    assert_eq!(buf, vec![2, 7, 0, 0, 0, 2]);

    let failing = |_: ErasedComponentType, _: u64| -> Result<Vec<u8>, PacketError> {
        Err(PacketError::InvalidData)
    };
    let mut buf = Vec::new();
    assert_eq!(
        stack.encode(&mut buf, failing),
        Err(StackError::Packet(PacketError::InvalidData))
    );
}

#[test]
fn stack_packet_decoding() {
    let mut b = ComponentMap::builder();
    b.insert(DAMAGE, 0);
    let base = b.build();
    let air_base = ComponentMap::empty();
    let stone = Item::new(7, false, &base);
    let air = Item::new(0, true, &air_base);
    let item_of = |id: u64| if id == 7 { Some(stone) } else { None };

    let (empty, end) =
        ItemStack::decode(&[0, 99], 0, air, item_of, known_type, read_byte_value).unwrap();
    assert!(empty.is_empty());
    assert_eq!(empty.item().raw_id(), 0);
    assert_eq!(end, 1);

    let (stack, end) = ItemStack::decode(
        &[3, 7, 0, 0, 0, 3, 1, 0, 4, 9],
        0,
        air,
        item_of,
        known_type,
        read_byte_value,
    )
    .unwrap();
    assert_eq!(end, 10);
    assert_eq!(stack.count(), 3);
    assert_eq!(stack.item().raw_id(), 7);
    assert_eq!(stack.components().get_raw(DAMAGE.id), Some(9));
    assert_eq!(
        stack.serialized_changes().unwrap().get(DAMAGE.id),
        Some(Some(9))
    );

    // A stack comes back from its packet form, and the whole form is read.
    let mut original = ItemStack::new(stone, 3);
    original.components_mut().insert(DAMAGE, 9);
    let mut buf = Vec::new();
    original.encode(&mut buf, byte_value).unwrap();
    let (read, end) =
        ItemStack::decode(&buf, 0, air, item_of, known_type, read_byte_value).unwrap();
    assert_eq!(read.count(), 3);
    assert_eq!(read.item().raw_id(), 7);
    assert_eq!(read.components().get_raw(DAMAGE.id), Some(9));
    assert_eq!(end, buf.len());

    let mut buf = Vec::new();
    ItemStack::new(stone, 3).encode(&mut buf, byte_value).unwrap();
    let (read, end) =
        ItemStack::decode(&buf, 0, air, item_of, known_type, read_byte_value).unwrap();
    assert_eq!(read.count(), 3);
    assert_eq!(read.components().get_raw(DAMAGE.id), Some(0));
    assert_eq!(end, buf.len());

    // Fewer than four bytes after the item id.
    assert_eq!(
        ItemStack::decode(&[3, 7, 0, 0], 0, air, item_of, known_type, read_byte_value).err(),
        Some(StackError::Packet(PacketError::InvalidData))
    );
    // A header that announces more entries than 32 bits count.
    assert_eq!(
        ItemStack::decode(
            &[3, 7, 0, 0, 0, 3, 0xff, 0xff, 0xff, 0xff, 0x0f, 1],
            0,
            air,
            item_of,
            known_type,
            read_byte_value
        )
        .err(),
        Some(StackError::Packet(PacketError::InvalidData))
    );
    // A count that does not end.
    assert_eq!(
        ItemStack::decode(&[0x80], 0, air, item_of, known_type, read_byte_value).err(),
        Some(StackError::Packet(PacketError::InvalidData))
    );

    assert_eq!(
        ItemStack::decode(&[3, 8, 0, 0], 0, air, item_of, known_type, read_byte_value).err(),
        Some(StackError::Packet(PacketError::InvalidData))
    );
    assert_eq!(
        ItemStack::decode(&[3], 0, air, item_of, known_type, read_byte_value).err(),
        Some(StackError::Packet(PacketError::InvalidData))
    );
}
