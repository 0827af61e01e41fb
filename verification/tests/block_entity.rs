use rimecraft_core::block_entity::{
    is_dummy, ComponentsAccess, Data, Field, FieldAction, Flagged, Flags, IdValue, NbtFields,
    NbtOutcome, RawBlockEntity, ReadError, SeedFields, DUMMY,
};
use rimecraft_core::block_pos::BlockPos;
use rimecraft_core::component::changes::ComponentChanges;
use rimecraft_core::component::{Builder, ComponentMap, ErasedComponentType};

#[test]
fn flags_values() {
    assert_eq!(Flags::identifying_data().bits(), 3);
    assert_eq!(Flags::default().bits(), 4);
    assert_eq!(Flags::default(), Flags::components());
    assert_eq!(Flags::id() | Flags::pos(), Flags::identifying_data());
    assert!(Flags::all().contains(Flags::pos()));
    assert!(!Flags::identifying_data().contains(Flags::components()));
    assert!(Flags::empty().is_empty());
    assert_eq!(Flags::from_bits(9), None);
    assert_eq!(Flags::from_bits(5), Some(Flags::id() | Flags::components()));
    assert_eq!(Flags::from_bits_truncate(0xff), Flags::all());
}

#[test]
fn flags_iterate_in_declaration_order() {
    assert_eq!(
        Flags::all().iter(),
        vec![Flags::id(), Flags::pos(), Flags::components()]
    );
    assert_eq!(
        (Flags::components() | Flags::id()).iter(),
        vec![Flags::id(), Flags::components()]
    );
    assert!(Flags::empty().iter().is_empty());
}

#[test]
fn flagged_fields_order() {
    let f = Flagged((), Flags::all());
    assert_eq!(
        f.fields(false),
        vec![Field::Id, Field::X, Field::Y, Field::Z, Field::Components]
    );
    assert_eq!(f.fields(true), vec![Field::Id, Field::X, Field::Y, Field::Z]);
    let f = Flagged((), Flags::default());
    assert_eq!(f.fields(false), vec![Field::Components]);
    assert!(f.fields(true).is_empty());
}

#[test]
fn field_keys() {
    assert_eq!(Field::from_key("id"), Field::Id);
    assert_eq!(Field::from_key("components"), Field::Components);
    assert_eq!(Field::from_key("x"), Field::X);
    assert_eq!(Field::from_key("y"), Field::Y);
    assert_eq!(Field::from_key("z"), Field::Z);
    assert_eq!(Field::from_key("Items"), Field::Other("Items".to_string()));
    assert_eq!(Field::Components.key(), "components");
    assert_eq!(Field::Id.key(), "id");
    assert_eq!(Field::X.action(), FieldAction::Skip);
    assert_eq!(Field::Id.action(), FieldAction::ReadId);
    assert_eq!(Field::Components.action(), FieldAction::ReadComponents);
    assert_eq!(Field::Other("a".into()).action(), FieldAction::Collect);
}

#[test]
fn seed_fields() {
    let mut f: SeedFields<'static, u32, i32> = SeedFields::new();
    f.collect("Items".to_string(), 3);
    assert!(matches!(SeedFields::<u32, i32>::new().finish(), Err(ReadError::MissingId)));
    f.id = Some(7);
    let (id, components, collected) = f.finish().unwrap();
    assert_eq!(id, 7);
    assert!(components.is_empty());
    assert_eq!(collected, vec![("Items".to_string(), 3)]);
}

#[test]
fn nbt_fields() {
    assert!(is_dummy(DUMMY));
    assert!(!is_dummy("dummy"));

    let mut f: NbtFields<u32, i32> = NbtFields::new(true);
    assert_eq!(f.visit_id(IdValue::Dummy), Ok(()));
    assert_eq!(f.visit_id(IdValue::Value(4)), Ok(()));
    assert_eq!(f.visit_id(IdValue::Value(5)), Err(ReadError::DuplicateId));
    f.collect("a".to_string(), 1);
    assert_eq!(f.finish(), Ok(NbtOutcome::Dummy));

    let mut f: NbtFields<u32, i32> = NbtFields::new(false);
    f.collect("a".to_string(), 1);
    assert_eq!(f.visit_id(IdValue::Value(4)), Ok(()));
    assert_eq!(
        f.finish(),
        Ok(NbtOutcome::Create(4, vec![("a".to_string(), 1)]))
    );
    assert_eq!(
        NbtFields::<u32, i32>::new(false).finish(),
        Err(ReadError::MissingId)
    );
}

struct Chest {
    lock: Option<u64>,
}

const LOCK: ErasedComponentType = ErasedComponentType {
    id: 10,
    transient: false,
};
const NAME: ErasedComponentType = ErasedComponentType {
    id: 11,
    transient: false,
};
const BE_DATA: ErasedComponentType = ErasedComponentType {
    id: 12,
    transient: false,
};

impl<'a> Data<'a> for Chest {
    fn read_components(&mut self, accessor: &mut ComponentsAccess<'_, 'a>) {
        self.lock = accessor.get(LOCK);
    }

    fn insert_components(&self, builder: &mut Builder) {
        if let Some(l) = self.lock {
            builder.insert(LOCK, l);
        }
    }
}

#[test]
fn block_entity_components() {
    let default = ComponentMap::empty();
    let mut be = RawBlockEntity::new(1, BlockPos::new(1, 2, 3), 9, Chest { lock: None });
    assert!(!be.is_removed());
    be.mark_removed();
    assert!(be.is_removed());
    be.cancel_removal();
    assert!(!be.is_removed());
    assert_eq!(be.pos(), BlockPos::new(1, 2, 3));
    assert_eq!(be.ty(), 1);

    let mut changes = ComponentChanges::builder();
    changes.insert(LOCK, 100);
    changes.insert(NAME, 200);
    changes.insert(BE_DATA, 300);
    be.read_components(&default, changes.build(), BE_DATA);
    assert_eq!(be.data().lock, Some(100));
    assert_eq!(be.components().len(), 1);
    assert_eq!(be.components().get_raw(NAME.id), Some(200));

    let created = be.create_components();
    assert_eq!(created.len(), 2);
    assert_eq!(created.get_raw(LOCK.id), Some(100));
    assert_eq!(created.get_raw(NAME.id), Some(200));
}

fn sign_type(id: u32) -> Option<u64> {
    if id == 4 {
        Some(40)
    } else {
        None
    }
}

fn build_sign(ty: u64, pos: BlockPos, state: u64) -> Option<RawBlockEntity<'static, u32>> {
    if state == 0 {
        None
    } else {
        Some(RawBlockEntity::new(ty, pos, state, 7))
    }
}

#[test]
fn block_entity_from_seed() {
    let pos = BlockPos::new(1, 2, 3);

    let mut f: SeedFields<u32, i32> = SeedFields::new();
    f.id = Some(4);
    f.collect("text".to_string(), 5);
    let (be, rest) = RawBlockEntity::from_seed(f, pos, 9, sign_type, build_sign).unwrap();
    assert_eq!(be.ty(), 40);
    assert_eq!(be.pos(), pos);
    assert_eq!(be.cached_state(), 9);
    assert_eq!(*be.data(), 7);
    assert!(be.components().is_empty());
    assert_eq!(rest, vec![("text".to_string(), 5)]);

    let mut b = ComponentMap::builder();
    b.insert(
        ErasedComponentType {
            id: 3,
            transient: false,
        },
        11,
    );
    let mut f: SeedFields<u32, i32> = SeedFields::new();
    f.id = Some(4);
    f.components = Some(b.build());
    let (be, _) = RawBlockEntity::from_seed(f, pos, 9, sign_type, build_sign).unwrap();
    assert_eq!(be.components().get_raw(3), Some(11));

    let f: SeedFields<u32, i32> = SeedFields::new();
    assert_eq!(
        RawBlockEntity::from_seed(f, pos, 9, sign_type, build_sign).err(),
        Some(ReadError::MissingId)
    );
    let mut f: SeedFields<u32, i32> = SeedFields::new();
    f.id = Some(5);
    assert_eq!(
        RawBlockEntity::from_seed(f, pos, 9, sign_type, build_sign).err(),
        Some(ReadError::UnknownType)
    );
    let mut f: SeedFields<u32, i32> = SeedFields::new();
    f.id = Some(4);
    assert_eq!(
        RawBlockEntity::from_seed(f, pos, 0, sign_type, build_sign).err(),
        Some(ReadError::CreateFailed)
    );
}

#[test]
fn block_entity_from_nbt() {
    let pos = BlockPos::new(4, 5, 6);
    let own = |p: BlockPos| Some(RawBlockEntity::new(1, p, 0, 3u32));
    let none = |_: BlockPos| None::<RawBlockEntity<'static, u32>>;

    let mut f: NbtFields<u32, i32> = NbtFields::new(true);
    f.visit_id(IdValue::Dummy).unwrap();
    f.collect("text".to_string(), 1);
    let (be, rest) = RawBlockEntity::from_nbt(f, pos, 9, sign_type, build_sign, own).unwrap();
    let be = be.unwrap();
    assert_eq!(be.ty(), 1);
    assert_eq!(be.pos(), pos);
    assert!(rest.is_empty());

    let mut f: NbtFields<u32, i32> = NbtFields::new(true);
    f.visit_id(IdValue::Dummy).unwrap();
    let (be, _) = RawBlockEntity::from_nbt(f, pos, 9, sign_type, build_sign, none).unwrap();
    assert!(be.is_none());

    let mut f: NbtFields<u32, i32> = NbtFields::new(false);
    f.visit_id(IdValue::Value(4)).unwrap();
    f.collect("text".to_string(), 2);
    let (be, rest) = RawBlockEntity::from_nbt(f, pos, 9, sign_type, build_sign, none).unwrap();
    assert_eq!(be.unwrap().ty(), 40);
    assert_eq!(rest, vec![("text".to_string(), 2)]);

    let mut f: NbtFields<u32, i32> = NbtFields::new(false);
    f.visit_id(IdValue::Value(4)).unwrap();
    let (be, _) = RawBlockEntity::from_nbt(f, pos, 0, sign_type, build_sign, none).unwrap();
    assert!(be.is_none());

    let mut f: NbtFields<u32, i32> = NbtFields::new(false);
    f.visit_id(IdValue::Value(8)).unwrap();
    assert_eq!(
        RawBlockEntity::from_nbt(f, pos, 9, sign_type, build_sign, none).err(),
        Some(ReadError::UnknownType)
    );
    let f: NbtFields<u32, i32> = NbtFields::new(false);
    assert_eq!(
        RawBlockEntity::from_nbt(f, pos, 9, sign_type, build_sign, none).err(),
        Some(ReadError::MissingId)
    );
}
