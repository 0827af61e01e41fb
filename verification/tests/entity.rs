use rimecraft_core::block_pos::BlockPos;
use rimecraft_core::entity::{
    ser_as_passenger, ChangeListener, ChangeMessageVariant, ChunkPos, EntityField, IdCounter,
    PosCache, RemovalReason, TypeFilter,
};

static KILLED: RemovalReason = RemovalReason {
    reason: "killed",
    should_destroy: true,
    should_save: false,
};

#[test]
fn id_counter_counts_up() {
    let c = IdCounter::new(5);
    assert_eq!(c.next_id(), 5);
    assert_eq!(c.next_id(), 6);
    assert_eq!(c.next_id(), 7);
}

#[test]
fn chunk_of_block() {
    assert_eq!(
        ChunkPos::of_block(BlockPos::new(17, 3, -1)),
        ChunkPos { x: 1, z: -1 }
    );
    assert_eq!(
        ChunkPos::of_block(BlockPos::new(-16, 0, -17)),
        ChunkPos { x: -1, z: -2 }
    );
}

#[test]
fn pos_cache_moves() {
    let mut c = PosCache::new();
    c.state_at_pos = Some(3);
    c.move_to(BlockPos::new(0, 0, 0));
    assert_eq!(c.state_at_pos, Some(3));
    c.move_to(BlockPos::new(40, 1, -40));
    assert_eq!(c.block_pos, BlockPos::new(40, 1, -40));
    assert_eq!(c.chunk_pos, ChunkPos { x: 2, z: -3 });
    assert_eq!(c.state_at_pos, None);
}

#[test]
fn listener_sends_position_updates() {
    let (tx, rx) = crossbeam_channel::bounded(1);
    let l = ChangeListener::new(tx, 77);
    l.notify_pos_update(9);
    l.notify_pos_update(10);
    let m = rx.try_recv().unwrap();
    assert_eq!(m.entity, 9);
    assert_eq!(m.section_pos, 77);
    assert!(matches!(m.variant, ChangeMessageVariant::UpdatePos));
    assert!(rx.try_recv().is_err());
    let removed = ChangeMessageVariant::Remove(&KILLED);
    assert!(matches!(removed, ChangeMessageVariant::Remove(r) if r.should_destroy));
}

#[test]
fn unit_filter_passes_everything() {
    let x = 5u32;
    assert_eq!(().cast_ref(&x), Some(&5));
    let mut y = 6u32;
    *TypeFilter::<u32>::cast_mut(&(), &mut y).unwrap() = 8;
    assert_eq!(y, 8);
    assert_eq!(TypeFilter::<u32>::hint_typeid(&()), None);
}

static UNLOADED: RemovalReason = RemovalReason {
    reason: "unloaded_to_chunk",
    should_destroy: false,
    should_save: true,
};

#[test]
fn passengers_saved_unless_discarded() {
    assert!(ser_as_passenger(None, true));
    assert!(!ser_as_passenger(None, false));
    assert!(!ser_as_passenger(Some(&KILLED), true));
    assert!(ser_as_passenger(Some(&UNLOADED), true));
    assert!(!ser_as_passenger(Some(&UNLOADED), false));
}

#[test]
fn entity_field_keys() {
    assert_eq!(EntityField::from_key("Pos"), EntityField::Pos);
    assert_eq!(EntityField::from_key("Motion"), EntityField::Velocity);
    assert_eq!(EntityField::from_key("Rotation"), EntityField::Rotation);
    assert_eq!(EntityField::from_key("UUID"), EntityField::Uuid);
    assert_eq!(EntityField::from_key("data"), EntityField::CustomComponent);
    assert_eq!(EntityField::from_key("Passengers"), EntityField::Passengers);
    assert_eq!(
        EntityField::from_key("Health"),
        EntityField::Other("Health".to_owned())
    );
    for key in ["Pos", "Motion", "Rotation", "UUID", "data", "Passengers", "Fire"] {
        assert_eq!(EntityField::from_key(key).key(), key);
    }
}
