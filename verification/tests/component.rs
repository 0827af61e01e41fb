use rimecraft_core::component::changes::{ComponentChanges, Type, TypeError};
use rimecraft_core::component::{ComponentMap, ErasedComponentType, MapError};
use rimecraft_core::packet::PacketError;
use rimecraft_core::varint::VarIntError;

const EDCODE_TY: ErasedComponentType = ErasedComponentType {
    id: 1,
    transient: true,
};
const PERSISTENT_TY: ErasedComponentType = ErasedComponentType {
    id: 2,
    transient: false,
};

#[test]
fn built_map() {
    let edcode_ty = EDCODE_TY;
    let persistent_ty = PERSISTENT_TY;

    let mut builder = ComponentMap::builder();
    builder.insert(edcode_ty, 114);
    builder.insert(edcode_ty, 514);
    builder.insert(persistent_ty, 1919);
    let mut map = builder.build();

    assert_eq!(map.len(), 2);
    assert!(map.changes().is_none());

    assert_eq!(
        map.get_raw(edcode_ty.id).expect("missing edcode_ty"),
        514,
        "edcode_ty value mismatch"
    );
    assert_eq!(
        map.get_raw(persistent_ty.id).expect("missing persistent_ty"),
        1919,
        "persistent_ty value mismatch"
    );

    *map.get_mut_raw(edcode_ty.id).expect("missing edcode_ty") = 114;
    assert_eq!(
        map.get_raw(edcode_ty.id).expect("missing edcode_ty"),
        114,
        "edcode_ty value mismatch after modification"
    );
}

#[test]
fn iter_map() {
    let edcode_ty = EDCODE_TY;
    let persistent_ty = PERSISTENT_TY;

    let mut builder = ComponentMap::builder();
    builder.insert(edcode_ty, 114);
    builder.insert(persistent_ty, 514);
    let map = builder.build();

    let mut count = 0;
    let iter = map.iter().into_iter();
    assert_eq!(iter.size_hint(), (2, Some(2)));
    assert_eq!(iter.len(), 2);
    for (ty, obj) in iter {
        if ty == edcode_ty {
            assert_eq!(obj, 114);
        } else if ty == persistent_ty {
            assert_eq!(obj, 514);
        } else {
            panic!("unexpected type for simple map");
        }
        count += 1;
    }
    assert_eq!(count, 2);

    let mut patched = ComponentMap::new(&map);
    patched
        .remove(persistent_ty)
        .expect("remove persistent component failed");
    patched.insert(persistent_ty, 1919);

    let mut count = 0;
    let iter = patched.iter().into_iter();
    assert_eq!(iter.size_hint(), (2, Some(2)));
    assert_eq!(iter.len(), 2);
    for (ty, obj) in iter {
        if ty == edcode_ty {
            assert_eq!(obj, 114);
        } else if ty == persistent_ty {
            assert_eq!(obj, 1919);
        } else {
            panic!("unexpected type for patched map");
        }
        count += 1;
    }
    assert_eq!(count, 2);
}

#[test]
fn patched_changes() {
    let edcode_ty = EDCODE_TY;
    let persistent_ty = PERSISTENT_TY;

    let mut builder = ComponentMap::builder();
    builder.insert(edcode_ty, 114);
    builder.insert(persistent_ty, 514);
    let map = builder.build();

    let mut patched = ComponentMap::new(&map);
    patched
        .remove(edcode_ty)
        .expect("remove transient component failed");
    patched.insert(persistent_ty, 1919);
    assert_eq!(patched.len(), 1);

    let changes = patched.changes().expect("no changes");
    assert_eq!(changes.len(), 2);
    let new_patched = ComponentMap::with_changes(&map, changes);
    assert_eq!(new_patched.len(), 1);
}

#[test]
fn empty_map_takes_a_component() {
    let mut map = ComponentMap::empty();
    assert_eq!(map.insert(PERSISTENT_TY, 1), None);
    assert_eq!(map.len(), 1);
    assert!(!map.is_empty());
    assert_eq!(map.get_raw(PERSISTENT_TY.id), Some(1));
}

#[test]
fn reinserting_base_value_returns_it() {
    let mut builder = ComponentMap::builder();
    builder.insert(PERSISTENT_TY, 7);
    let base = builder.build();
    let mut patched = ComponentMap::new(&base);
    assert_eq!(patched.insert(PERSISTENT_TY, 7), Some(7));
    assert_eq!(patched.len(), 1);
    assert_eq!(patched.iter().len(), 1);
    assert!(patched.changes().expect("patched").is_empty());
}

#[test]
fn patched_changes_after_remove_and_insert() {
    let mut builder = ComponentMap::builder();
    builder.insert(PERSISTENT_TY, 7);
    let base = builder.build();
    let mut patched = ComponentMap::new(&base);
    assert_eq!(patched.remove(PERSISTENT_TY), Some(7));
    assert_eq!(patched.changes().expect("patched").get(PERSISTENT_TY.id), Some(None));
    assert_eq!(patched.insert(PERSISTENT_TY, 8), None);
    assert_eq!(patched.changes().expect("patched").get(PERSISTENT_TY.id), Some(Some(8)));
    assert_eq!(patched.insert(PERSISTENT_TY, 7), Some(8));
    assert_eq!(patched.changes().expect("patched").len(), 0);
    assert_eq!(patched.len(), 1);
}

#[test]
fn patched_get_mut_copies_on_write() {
    let mut builder = ComponentMap::builder();
    builder.insert(PERSISTENT_TY, 7);
    let base = builder.build();
    let mut patched = ComponentMap::new(&base);
    *patched.get_mut_raw(PERSISTENT_TY.id).unwrap() = 9;
    assert_eq!(patched.get_raw(PERSISTENT_TY.id), Some(9));
    assert_eq!(base.get_raw(PERSISTENT_TY.id), Some(7));
    assert_eq!(patched.len(), 1);
    assert_eq!(
        patched.get_key_value_raw(PERSISTENT_TY.id),
        Some((PERSISTENT_TY, 9))
    );
    assert!(patched.get_mut_raw(EDCODE_TY.id).is_none());
}

#[test]
fn changes_builder_and_queries() {
    let mut builder = ComponentChanges::builder();
    builder.insert(PERSISTENT_TY, 5);
    builder.remove(EDCODE_TY);
    builder.insert(EDCODE_TY, 6);
    let changes = builder.build();
    assert_eq!(changes.len(), 2);
    assert!(!changes.is_empty());
    assert_eq!(changes.get(PERSISTENT_TY.id), Some(Some(5)));
    assert_eq!(changes.get(EDCODE_TY.id), Some(Some(6)));
    assert_eq!(changes.get(3), None);
    assert_eq!(changes.serializable_len(), 1);
}

#[test]
fn added_removed_pair() {
    let mut builder = ComponentChanges::builder();
    builder.insert(PERSISTENT_TY, 5);
    builder.remove(EDCODE_TY);
    let (added, removed) = builder.build().into_added_removed_pair();
    assert_eq!(added.len(), 1);
    assert_eq!(added.get_raw(PERSISTENT_TY.id), Some(5));
    assert_eq!(removed.len(), 1);
    assert!(removed.contains(&EDCODE_TY.id));

    let (added, removed) = ComponentChanges::builder().build().into_added_removed_pair();
    assert!(added.is_empty());
    assert!(removed.is_empty());
}

#[test]
fn retain_by_type() {
    let mut builder = ComponentChanges::builder();
    builder.insert(PERSISTENT_TY, 5);
    builder.remove(EDCODE_TY);
    let changes = builder.build();
    let kept = changes.retain(|ty| !ty.transient);
    assert_eq!(kept.len(), 1);
    assert_eq!(kept.get(PERSISTENT_TY.id), Some(Some(5)));
    assert_eq!(kept.get(EDCODE_TY.id), None);
    assert_eq!(kept.serializable_len(), 1);
    let none = kept.retain(|_| false);
    assert!(none.is_empty());
    assert_eq!(none.serializable_len(), 0);
}

#[test]
fn builder_counts_serializable_removals() {
    let mut builder = ComponentChanges::builder();
    builder.remove(PERSISTENT_TY);
    let changes = builder.build();
    assert_eq!(changes.len(), 1);
    assert_eq!(changes.get(PERSISTENT_TY.id), Some(None));
    assert_eq!(changes.serializable_len(), 1);
    assert_eq!(changes.serialized_entries().len(), 1);
}

#[test]
fn serialized_changes_skip_transient() {
    let other = ErasedComponentType {
        id: 3,
        transient: false,
    };
    let mut builder = ComponentChanges::builder();
    builder.insert(PERSISTENT_TY, 5);
    builder.insert(EDCODE_TY, 6);
    builder.remove(other);
    let changes = builder.build();
    let mut entries = changes.serialized_entries();
    entries.sort_by_key(|(t, _)| t.ty.id);
    assert_eq!(
        entries,
        vec![
            (
                Type {
                    ty: PERSISTENT_TY,
                    rm: false
                },
                Some(5)
            ),
            (Type { ty: other, rm: true }, None),
        ]
    );

    let read: Vec<(Type, u64)> = entries
        .iter()
        .map(|(t, v)| (*t, v.unwrap_or(0)))
        .collect();
    let back = ComponentChanges::from_deserialized(read);
    assert_eq!(back.len(), 2);
    assert_eq!(back.get(PERSISTENT_TY.id), Some(Some(5)));
    assert_eq!(back.get(other.id), Some(None));
    assert_eq!(back.serializable_len(), 2);
}

#[test]
fn type_keys() {
    let t = Type {
        ty: PERSISTENT_TY,
        rm: true,
    };
    assert_eq!(t.key("minecraft:damage"), "!minecraft:damage");
    let t = Type {
        ty: PERSISTENT_TY,
        rm: false,
    };
    assert_eq!(t.key("minecraft:damage"), "minecraft:damage");
    assert_eq!(Type::split_key("!minecraft:damage"), (true, "minecraft:damage"));
    assert_eq!(Type::split_key("minecraft:damage"), (false, "minecraft:damage"));
    assert_eq!(Type::split_key(""), (false, ""));
    assert_eq!(Type::resolve(true, None), Err(TypeError::UnknownType));
    assert_eq!(
        Type::resolve(false, Some(EDCODE_TY)),
        Err(TypeError::NotSerializable)
    );
    assert_eq!(
        Type::resolve(true, Some(PERSISTENT_TY)),
        Ok(Type {
            ty: PERSISTENT_TY,
            rm: true
        })
    );
}

#[test]
fn map_serialization() {
    let mut builder = ComponentMap::builder();
    builder.insert(PERSISTENT_TY, 5);
    builder.insert(EDCODE_TY, 6);
    let map = builder.build();
    let entries = map.serialized_entries();
    assert_eq!(entries, vec![(PERSISTENT_TY, 5)]);
    let back = ComponentMap::from_deserialized(entries).unwrap();
    assert_eq!(back.len(), 1);
    assert_eq!(back.get_raw(PERSISTENT_TY.id), Some(5));
    assert!(matches!(
        ComponentMap::from_deserialized(vec![(PERSISTENT_TY, 1), (EDCODE_TY, 2)]),
        Err(MapError::TransientType(EDCODE_TY))
    ));
    assert!(ComponentMap::from_deserialized(Vec::new()).unwrap().is_empty());
}

#[test]
fn with_changes_counts() {
    let mut builder = ComponentMap::builder();
    builder.insert(PERSISTENT_TY, 5);
    let base = builder.build();
    let mut cb = ComponentChanges::builder();
    cb.remove(PERSISTENT_TY);
    cb.insert(EDCODE_TY, 9);
    let patched = ComponentMap::with_changes(&base, cb.build());
    assert_eq!(patched.len(), 1);
    assert_eq!(patched.get_raw(PERSISTENT_TY.id), None);
    assert_eq!(patched.get_raw(EDCODE_TY.id), Some(9));
    assert!(patched.contains_raw(EDCODE_TY.id));
}

#[test]
fn cloned_map_is_independent() {
    let mut builder = ComponentMap::builder();
    builder.insert(PERSISTENT_TY, 3);
    let base = builder.build();
    let mut patched = ComponentMap::new(&base);
    patched.insert(EDCODE_TY, 4);
    let mut copy = patched.clone();
    assert_eq!(copy.get_raw(EDCODE_TY.id), Some(4));
    assert_eq!(copy.get_raw(PERSISTENT_TY.id), Some(3));
    assert_eq!(copy.len(), patched.len());
    copy.insert(EDCODE_TY, 5);
    assert_eq!(copy.get_raw(EDCODE_TY.id), Some(5));
    assert_eq!(patched.get_raw(EDCODE_TY.id), Some(4));

    let simple = base.clone();
    assert_eq!(simple.get_raw(PERSISTENT_TY.id), Some(3));
    assert_eq!(simple.len(), 1);
}

fn byte_value(_ty: ErasedComponentType, v: u64) -> Result<Vec<u8>, PacketError> {
    Ok(vec![v as u8])
}

fn read_byte_value(_ty: ErasedComponentType, buf: &[u8], pos: usize) -> Result<(u64, usize), PacketError> {
    match buf.get(pos) {
        Some(&b) => Ok((b as u64, 1)),
        None => Err(PacketError::InvalidData),
    }
}

fn known_type(id: u64) -> Option<ErasedComponentType> {
    match id {
        1 => Some(EDCODE_TY),
        2 => Some(PERSISTENT_TY),
        _ => None,
    }
}

#[test]
fn changes_packet_roundtrip() {
    let mut builder = ComponentChanges::builder();
    builder.insert(PERSISTENT_TY, 5);
    builder.remove(EDCODE_TY);
    let changes = builder.build();

    let mut buf = vec![0xEE];
    changes.encode(&mut buf, byte_value).unwrap();
    assert_eq!(buf, vec![0xEE, 1, 1, 2, 5, 1]);

    let (decoded, end) = ComponentChanges::decode(&buf, 1, known_type, read_byte_value).unwrap();
    assert_eq!(end, 6);
    assert_eq!(decoded.len(), 2);
    assert_eq!(decoded.get(PERSISTENT_TY.id), Some(Some(5)));
    assert_eq!(decoded.get(EDCODE_TY.id), Some(None));
    // Only the persistent type counts as serializable.
    assert_eq!(decoded.serializable_len(), 1);
}

#[test]
fn changes_packet_many_entries() {
    let mut builder = ComponentChanges::builder();
    for id in 10..20u64 {
        builder.insert(ErasedComponentType { id, transient: false }, id * 2);
    }
    let changes = builder.build();
    let mut buf = Vec::new();
    changes.encode(&mut buf, byte_value).unwrap();
    assert_eq!(buf.len(), 2 + 10 * 2);
    assert_eq!(&buf[..2], &[10, 0]);
    let lookup = |id: u64| Some(ErasedComponentType { id, transient: false });
    let (decoded, end) = ComponentChanges::decode(&buf, 0, lookup, read_byte_value).unwrap();
    assert_eq!(end, buf.len());
    for id in 10..20u64 {
        assert_eq!(decoded.get(id), Some(Some(id * 2)));
    }
}

#[test]
fn changes_packet_errors() {
    let mut builder = ComponentChanges::builder();
    builder.insert(PERSISTENT_TY, 5);
    let changes = builder.build();
    let mut buf = Vec::new();
    let failing = |_: ErasedComponentType, _: u64| -> Result<Vec<u8>, PacketError> {
        Err(PacketError::InvalidData)
    };
    assert_eq!(changes.encode(&mut buf, failing), Err(PacketError::InvalidData));

    // An unknown type id.
    assert_eq!(
        ComponentChanges::decode(&[0, 1, 9], 0, known_type, read_byte_value).err(),
        Some(PacketError::InvalidData)
    );
    // The bytes end before the announced entry.
    assert_eq!(
        ComponentChanges::decode(&[1, 0], 0, known_type, read_byte_value).err(),
        Some(PacketError::InvalidData)
    );
    // The value cannot be read.
    assert_eq!(
        ComponentChanges::decode(&[1, 0, 2], 0, known_type, read_byte_value).err(),
        Some(PacketError::InvalidData)
    );
    // A type id too large for 64 bits.
    let mut long = vec![0u8, 1];
    long.extend_from_slice(&[0xFF; 10]);
    assert_eq!(
        ComponentChanges::decode(&long, 0, known_type, read_byte_value).err(),
        Some(PacketError::VarInt(VarIntError::TooLarge))
    );
    // A header that announces all of 32 bits of set components and one
    // removal more.
    assert_eq!(
        ComponentChanges::decode(
            &[0xff, 0xff, 0xff, 0xff, 0x0f, 1],
            0,
            known_type,
            read_byte_value
        )
        .err(),
        Some(PacketError::InvalidData)
    );
    // A header that ends early.
    assert_eq!(
        ComponentChanges::decode(&[0x80], 0, known_type, read_byte_value).err(),
        Some(PacketError::InvalidData)
    );
    assert_eq!(
        ComponentChanges::decode(&[], 0, known_type, read_byte_value).err(),
        Some(PacketError::InvalidData)
    );
}

#[test]
fn builder_extends() {
    let mut builder = ComponentMap::builder();
    builder.insert(PERSISTENT_TY, 1);
    builder.extend(vec![(EDCODE_TY, 2), (PERSISTENT_TY, 3)]);
    let map = builder.build();
    assert_eq!(map.len(), 2);
    assert_eq!(map.get_raw(PERSISTENT_TY.id), Some(3));
    assert_eq!(map.get_raw(EDCODE_TY.id), Some(2));
}

fn int_value(_ty: ErasedComponentType, v: u64) -> Result<Vec<u8>, PacketError> {
    Ok((v as u32).to_be_bytes().to_vec())
}

fn read_int_value(_ty: ErasedComponentType, buf: &[u8], pos: usize) -> Result<(u64, usize), PacketError> {
    match buf.get(pos..pos + 4) {
        Some(b) => Ok((u32::from_be_bytes([b[0], b[1], b[2], b[3]]) as u64, 4)),
        None => Err(PacketError::InvalidData),
    }
}

#[test]
fn map_serde() {
    let mut builder = ComponentMap::builder();
    builder.insert(EDCODE_TY, 114);
    builder.insert(PERSISTENT_TY, 514);
    let map = builder.build();

    let entries = map.serialized_entries();
    let new_map = ComponentMap::from_deserialized(entries).expect("deserialize failed");
    assert_eq!(new_map.len(), 1, "map length not intended");
    assert_eq!(
        new_map.get_raw(PERSISTENT_TY.id).expect("missing persistent_ty"),
        514
    );
}

#[test]
fn changes_serde() {
    let mut builder = ComponentMap::builder();
    builder.insert(EDCODE_TY, 114);
    builder.insert(PERSISTENT_TY, 514);
    let map = builder.build();

    // Additions and modifications
    {
        let mut patched = ComponentMap::new(&map);
        patched
            .remove(EDCODE_TY)
            .expect("remove transient component failed");
        patched.insert(PERSISTENT_TY, 1919);

        let changes = patched.changes().expect("no changes");
        let read: Vec<(Type, u64)> = changes
            .serialized_entries()
            .iter()
            .map(|(t, v)| (*t, v.unwrap_or(0)))
            .collect();
        let new_changes = ComponentChanges::from_deserialized(read);
        assert_eq!(new_changes.len(), 1, "changes length not intended");
        assert_eq!(
            new_changes
                .get(PERSISTENT_TY.id)
                .expect("missing persistent_ty")
                .expect("persistent_ty is not removed"),
            1919
        );
    }

    // Removals
    {
        let mut patched = ComponentMap::new(&map);
        patched
            .remove(PERSISTENT_TY)
            .expect("remove persistent component failed");

        let changes = patched.changes().expect("no changes");
        let read: Vec<(Type, u64)> = changes
            .serialized_entries()
            .iter()
            .map(|(t, v)| (*t, v.unwrap_or(0)))
            .collect();
        let new_changes = ComponentChanges::from_deserialized(read);
        assert_eq!(new_changes.len(), 1, "changes length not intended");
        assert!(
            new_changes
                .get(PERSISTENT_TY.id)
                .expect("missing persistent_ty")
                .is_none(),
            "persistent_ty should be removed"
        );
    }
}

#[test]
fn changes_edcode() {
    let mut builder = ComponentMap::builder();
    builder.insert(EDCODE_TY, 114);
    builder.insert(PERSISTENT_TY, 514);
    let map = builder.build();

    let mut patched = ComponentMap::new(&map);
    patched
        .remove(EDCODE_TY)
        .expect("remove transient component failed");
    patched.insert(PERSISTENT_TY, 1919);

    let changes = patched.changes().expect("no changes");

    let mut buf = Vec::new();
    changes.encode(&mut buf, int_value).expect("serialize failed");
    let (new_changes, _) = ComponentChanges::decode(&buf[..], 0, known_type, read_int_value)
        .expect("deserialize failed");
    assert_eq!(new_changes.len(), 2, "changes length not intended");
    assert!(
        new_changes
            .get(EDCODE_TY.id)
            .expect("missing edcode_ty")
            .is_none(),
        "edcode_ty is removed"
    );
    assert_eq!(
        new_changes
            .get(PERSISTENT_TY.id)
            .expect("missing persistent_ty")
            .expect("persistent_ty is not removed"),
        1919
    );
}
