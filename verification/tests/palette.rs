use rimecraft_core::palette::{DecodeError, Error, Palette, Strategy};

#[test]
fn singular() {
    let mut palette = Palette::new(Strategy::Singular, 0, Vec::<u64>::new(), Vec::<u64>::new());

    assert_eq!(palette.len(), 0);
    assert_eq!(palette.index_or_insert(36), Ok(0));
    assert_eq!(palette.get(0), Some(36));
    let mut iter = palette.iter().into_iter();
    assert!(matches!(iter.next(), Some(36)));
    assert!(iter.next().is_none());
    assert_eq!(palette.len(), 1);
    assert_eq!(palette.config(), (Strategy::Singular, 0));
}

fn check_indexed(strategy: Strategy) {
    let mut palette = Palette::new(strategy, 2, Vec::<u64>::new(), vec![36u64, 39u64]);

    assert_eq!(palette.len(), 2, "initial length failed");
    assert_eq!(palette.index_or_insert(140), Ok(2), "index_or_insert #1 failed");
    assert_eq!(palette.index_or_insert(4), Ok(3), "index_or_insert #2 failed");
    assert_eq!(palette.index_or_insert(114), Err((3, 114)), "index_or_insert #3 failed");
    assert_eq!(palette.get(0), Some(36), "get failed");
    assert_eq!(palette.iter(), vec![36, 39, 140, 4], "iteration failed");
    assert_eq!(palette.len(), 4, "final length failed");
    assert_eq!(palette.config(), (strategy, 2), "config failed");
}

#[test]
fn array() {
    check_indexed(Strategy::Array);
}

#[test]
fn bi_map() {
    check_indexed(Strategy::BiMap);
}

#[test]
fn direct() {
    let palette = Palette::new(Strategy::Direct, 36, vec![36u64, 39, 140, 4], Vec::<u64>::new());

    assert_eq!(palette.len(), 4);
    assert_eq!(palette.index(36), Some(0));
    assert_eq!(palette.index(39), Some(1));
    assert_eq!(palette.index(140), Some(2));
    assert_eq!(palette.index(4), Some(3));
    assert_eq!(palette.get(0), Some(36));
    assert_eq!(palette.iter(), vec![36, 39, 140, 4]);
    assert_eq!(palette.config(), (Strategy::Direct, 0));
}

#[test]
fn existing_entries_keep_their_index() {
    let mut palette = Palette::new(Strategy::Array, 1, Vec::<u64>::new(), vec![7u64]);
    assert_eq!(palette.index_or_insert(7), Ok(0));
    assert_eq!(palette.index_or_insert(9), Ok(1));
    assert_eq!(palette.index_or_insert(9), Ok(1));
    assert_eq!(palette.index(9), Some(1));
    assert_eq!(palette.index(8), None);
}

#[test]
fn singular_rejects_second_entry() {
    let mut palette = Palette::new(Strategy::Singular, 0, Vec::<u64>::new(), vec![5u64]);
    assert_eq!(palette.index_or_insert(6), Err((1, 6)));
    assert_eq!(palette.index(5), Some(0));
    assert_eq!(palette.get(1), None);
}

#[test]
fn direct_unknown_entry_indexes_to_zero() {
    let palette = Palette::new(Strategy::Direct, 0, vec![1u64, 2], Vec::<u64>::new());
    assert_eq!(palette.index(99), Some(0));
    assert_eq!(palette.get(5), None);
}

#[test]
fn bi_map_keeps_last_duplicate_index() {
    let palette = Palette::new(Strategy::BiMap, 2, Vec::<u64>::new(), vec![3u64, 3]);
    assert_eq!(palette.index(3), Some(1));
    let array = Palette::new(Strategy::Array, 2, Vec::<u64>::new(), vec![3u64, 3]);
    assert_eq!(array.index(3), Some(0));
}

#[test]
fn encode_array_palette() {
    let list = vec![10u64, 20, 30, 40];
    let palette = Palette::new(Strategy::Array, 2, list.clone(), vec![30u64, 10]);
    let mut buf = Vec::new();
    palette.encode(&mut buf).unwrap();
    assert_eq!(buf, vec![2, 2, 0]);

    let unknown = Palette::new(Strategy::Array, 2, list.clone(), vec![30u64, 99]);
    assert_eq!(unknown.encode(&mut Vec::new()), Err(Error::UnknownEntry));

    let singular = Palette::new(Strategy::Singular, 0, list.clone(), Vec::<u64>::new());
    assert_eq!(singular.encode(&mut Vec::new()), Err(Error::Uninitialized));
    let singular = Palette::new(Strategy::Singular, 0, list.clone(), vec![40u64]);
    let mut buf = Vec::new();
    singular.encode(&mut buf).unwrap();
    assert_eq!(buf, vec![3]);

    let direct = Palette::new(Strategy::Direct, 0, list, Vec::<u64>::new());
    let mut buf = Vec::new();
    direct.encode(&mut buf).unwrap();
    assert!(buf.is_empty());
}

#[test]
fn decode_in_place_palettes() {
    let list = vec![10u64, 20, 30, 40];
    let mut palette = Palette::new(Strategy::BiMap, 2, list.clone(), vec![10u64]);
    assert_eq!(palette.decode_in_place(&[3, 1, 2, 3, 99]), Ok(4));
    assert_eq!(palette.iter(), vec![20, 30, 40]);

    let mut palette = Palette::new(Strategy::Array, 2, list.clone(), Vec::<u64>::new());
    assert_eq!(
        palette.decode_in_place(&[2, 1, 9]),
        Err(DecodeError::Palette(Error::UnknownId(9)))
    );
    assert_eq!(palette.iter(), vec![20]);

    let mut singular = Palette::new(Strategy::Singular, 0, list.clone(), Vec::<u64>::new());
    assert_eq!(singular.decode_in_place(&[2]), Ok(1));
    assert_eq!(singular.get(0), Some(30));

    let mut roundtrip = Palette::new(Strategy::Array, 3, list.clone(), Vec::<u64>::new());
    let source = Palette::new(Strategy::Array, 3, list, vec![40u64, 10, 20]);
    let mut buf = Vec::new();
    source.encode(&mut buf).unwrap();
    assert_eq!(roundtrip.decode_in_place(&buf), Ok(buf.len()));
    assert_eq!(roundtrip.iter(), source.iter());
}

#[test]
fn cloned_palette_accepts_same_inserts() {
    for strategy in [Strategy::Array, Strategy::BiMap] {
        let mut palette = Palette::new(strategy, 1, Vec::<u64>::new(), vec![5u64]);
        let mut copy = palette.clone();
        assert_eq!(copy.config(), palette.config());
        assert_eq!(copy.iter(), palette.iter());
        assert_eq!(copy.index_or_insert(6), Ok(1));
        assert_eq!(palette.index_or_insert(6), Ok(1));
        assert_eq!(copy.index_or_insert(7), Err((2, 7)));
        assert_eq!(palette.index_or_insert(7), Err((2, 7)));
    }
    let mut single = Palette::new(Strategy::Singular, 0, Vec::<u64>::new(), Vec::<u64>::new());
    let mut copy = single.clone();
    assert_eq!(copy.index_or_insert(3), Ok(0));
    assert_eq!(single.index_or_insert(3), Ok(0));
    assert_eq!(single.index_or_insert(4), Err((1, 4)));
}

#[test]
fn direct_palette_takes_any_bits() {
    let palette = Palette::new(Strategy::Direct, 100, vec![1u64, 2], Vec::<u64>::new());
    assert_eq!(palette.config(), (Strategy::Direct, 0));
    assert_eq!(palette.index(2), Some(1));
}
