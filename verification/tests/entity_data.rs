use rimecraft_core::entity_data::{
    CodecId, CodecRegistry, DataError, DataIdRegistry, DataTrackerBuilder, DataTrackerEntry,
    SerializedEntry, TrackedData,
};
use rimecraft_core::packet::{Decode, Encode, PacketError};
use rimecraft_core::varint::VarIntError;

const ZOMBIE: u64 = 7;
const PIG: u64 = 9;

#[test]
fn codec_ids_count_up() {
    let mut codecs: CodecRegistry<char> = CodecRegistry::new();
    assert_eq!(codecs.register('a'), CodecId(0));
    assert_eq!(codecs.register('b'), CodecId(1));
    assert_eq!(codecs.get_raw(CodecId(1)), Some('b'));
    assert_eq!(codecs.get_raw(CodecId(2)), None);
}

#[test]
fn data_ids_count_per_entity_type() {
    let mut ids = DataIdRegistry::new();
    assert_eq!(ids.data_count(ZOMBIE), 0);
    let a = TrackedData::with_codec(ids.register_data(ZOMBIE), CodecId(0));
    let b = TrackedData::with_codec(ids.register_data(ZOMBIE), CodecId(0));
    let c = TrackedData::with_codec(ids.register_data(PIG), CodecId(0));
    assert_eq!(a.id(), 0);
    assert_eq!(b.id(), 1);
    assert_eq!(c.id(), 0);
    assert_eq!(ids.data_count(ZOMBIE), 2);
    assert_eq!(ids.data_count(PIG), 1);
}

#[test]
fn tracker_builds_and_tracks_changes() {
    let mut ids = DataIdRegistry::new();
    let health = TrackedData::with_codec(ids.register_data(ZOMBIE), CodecId(3));
    let air = TrackedData::with_codec(ids.register_data(ZOMBIE), CodecId(1));

    let mut builder = DataTrackerBuilder::new(&ids, ZOMBIE);
    assert!(builder.is_empty());
    assert_eq!(builder.insert(health, 20), None);
    assert_eq!(builder.insert(health, 10), Some(10));
    assert_eq!(builder.insert(air, 300), None);
    assert_eq!(builder.len(), 2);

    let mut tracker = builder.build();
    assert_eq!(tracker.get(&health), Some(20));
    assert!(tracker.changed_entries().is_empty());
    assert!(tracker.dirty_entries().is_empty());

    *tracker.get_mut(&air).unwrap() = 150;
    assert_eq!(tracker.get(&air), Some(150));
    let changed = tracker.changed_entries();
    assert_eq!(
        changed,
        vec![SerializedEntry { id: 1, codec_id: CodecId(1), value: 150 }]
    );
    assert_eq!(tracker.self_cleaning_dirty_entries(), changed);
    assert!(tracker.dirty_entries().is_empty());
    // Still changed after cleaning the dirty flags.
    assert_eq!(tracker.changed_entries(), changed);
}

#[test]
fn tracker_applies_updates() {
    let mut ids = DataIdRegistry::new();
    let health = TrackedData::with_codec(ids.register_data(PIG), CodecId(3));
    let mut builder = DataTrackerBuilder::new(&ids, PIG);
    builder.insert(health, 10);
    let mut tracker = builder.build();
    let updated = tracker.update_entries(vec![
        SerializedEntry { id: 0, codec_id: CodecId(3), value: 4 },
        SerializedEntry { id: 5, codec_id: CodecId(3), value: 8 },
    ]);
    assert_eq!(updated, vec![health.raw()]);
    assert_eq!(tracker.get(&health), Some(4));
    // Updates from the other side do not make the value dirty.
    assert!(tracker.dirty_entries().is_empty());
}

#[test]
fn entry_get_mut_marks_changed() {
    let mut ids = DataIdRegistry::new();
    let data = TrackedData::with_codec(ids.register_data(PIG), CodecId(0));
    let mut entry = DataTrackerEntry::new(data, 1);
    assert!(entry.is_unchanged());
    assert!(!entry.is_dirty());
    *entry.get_mut() = 2;
    assert_eq!(entry.get(), 2);
    assert!(!entry.is_unchanged());
    assert_eq!(entry.data(), data.raw());
    entry.set_dirty(true);
    assert!(entry.is_dirty());
    assert_eq!(
        entry.as_serialized(),
        SerializedEntry { id: 0, codec_id: CodecId(0), value: 2 }
    );
}

#[test]
fn header_roundtrip() {
    let mut codecs: CodecRegistry<&str> = CodecRegistry::new();
    for name in ["byte", "int", "long", "float", "string"] {
        codecs.register(name);
    }
    let entry = SerializedEntry { id: 17, codec_id: CodecId(4), value: 0 };
    let mut buf = Vec::new();
    entry.encode_header(&mut buf).unwrap();
    assert_eq!(buf, vec![17, 4]);
    buf.extend_from_slice(&[0xAA, 0xBB]);
    assert_eq!(
        SerializedEntry::decode_header(&buf, &codecs),
        Ok((17, CodecId(4), "string", 2))
    );
}

#[test]
fn header_with_large_codec_id() {
    let mut codecs: CodecRegistry<u8> = CodecRegistry::new();
    for i in 0..200u8 {
        codecs.register(i);
    }
    let entry = SerializedEntry { id: 254, codec_id: CodecId(150), value: 0 };
    let mut buf = Vec::new();
    entry.encode_header(&mut buf).unwrap();
    assert_eq!(buf, vec![254, 0x96, 0x01]);
    assert_eq!(
        SerializedEntry::decode_header(&buf, &codecs),
        Ok((254, CodecId(150), 150, 3))
    );
}

#[test]
fn header_errors() {
    let codecs: CodecRegistry<u8> = CodecRegistry::new();
    let mut buf = Vec::new();
    let entry = SerializedEntry { id: 255, codec_id: CodecId(0), value: 0 };
    assert_eq!(entry.encode_header(&mut buf), Err(DataError::InvalidDataId(255)));
    assert!(buf.is_empty());
    assert_eq!(
        SerializedEntry::decode_header(&[255, 0], &codecs),
        Err(DataError::InvalidDataId(255))
    );
    assert_eq!(
        SerializedEntry::decode_header(&[3, 0], &codecs),
        Err(DataError::CodecNotFound(CodecId(0)))
    );
    assert_eq!(
        SerializedEntry::decode_header(&[3, 0xFF, 0xFF, 0xFF, 0xFF, 0xFF, 0x01], &codecs),
        Err(DataError::Packet(PacketError::VarInt(VarIntError::TooLarge)))
    );
    assert_eq!(
        SerializedEntry::decode_header(&[], &codecs),
        Err(DataError::Packet(PacketError::InvalidData))
    );
    assert_eq!(
        SerializedEntry::decode_header(&[3], &codecs),
        Err(DataError::Packet(PacketError::InvalidData))
    );
    assert_eq!(
        SerializedEntry::decode_header(&[3, 0x80], &codecs),
        Err(DataError::Packet(PacketError::InvalidData))
    );
}

#[test]
fn codec_id_codec() {
    let mut buf = Vec::new();
    CodecId(300).encode(&mut buf).unwrap();
    assert_eq!(buf, vec![0xAC, 0x02]);
    assert_eq!(CodecId::decode(&buf), Ok((CodecId(300), 2)));
}

#[test]
fn data_ids_interleaved_types() {
    let mut ids = DataIdRegistry::new();
    let got: Vec<u32> = [ZOMBIE, PIG, ZOMBIE, ZOMBIE, PIG]
        .iter()
        .map(|&t| TrackedData::with_codec(ids.register_data(t), CodecId(0)).id())
        .collect();
    assert_eq!(got, vec![0, 0, 1, 2, 1]);
    assert_eq!(ids.data_count(ZOMBIE), 3);
    assert_eq!(ids.data_count(PIG), 2);
}

#[test]
fn dirty_entries_in_id_order() {
    let mut ids = DataIdRegistry::new();
    let data: Vec<TrackedData> = (0..4)
        .map(|i| TrackedData::with_codec(ids.register_data(ZOMBIE), CodecId(i)))
        .collect();
    let mut builder = DataTrackerBuilder::new(&ids, ZOMBIE);
    for d in data.iter().rev() {
        assert_eq!(builder.insert(*d, 0), None);
    }
    let mut tracker = builder.build();
    *tracker.get_mut(&data[3]).unwrap() = 30;
    *tracker.get_mut(&data[0]).unwrap() = 10;
    *tracker.get_mut(&data[2]).unwrap() = 20;
    let dirty: Vec<u32> = tracker.dirty_entries().iter().map(|e| e.id).collect();
    assert_eq!(dirty, vec![0, 2, 3]);
    let cleaned: Vec<u32> = tracker
        .self_cleaning_dirty_entries()
        .iter()
        .map(|e| e.id)
        .collect();
    assert_eq!(cleaned, vec![0, 2, 3]);
    assert!(tracker.dirty_entries().is_empty());
}
