use rimecraft_core::container::{apply_each, bits_needed, ProvidePalette};
use rimecraft_core::palette::Strategy;

#[test]
fn apply_each_calls_once_per_run() {
    let calls = std::cell::Cell::new(0);
    let mut is = [3u32, 3, 5, 5, 5, 3, 7];
    apply_each(&mut is, |x| {
        calls.set(calls.get() + 1);
        x * 10
    });
    assert_eq!(is, [30, 30, 50, 50, 50, 30, 70]);
    assert_eq!(calls.get(), 4);
}

#[test]
fn apply_each_leading_max_is_kept() {
    let mut is = [u32::MAX, u32::MAX, 1];
    apply_each(&mut is, |x| x.wrapping_add(1));
    assert_eq!(is, [u32::MAX, u32::MAX, 2]);
    let mut empty: [u32; 0] = [];
    apply_each(&mut empty, |x| x);
}

#[test]
fn bit_lengths() {
    assert_eq!(bits_needed(0), 0);
    assert_eq!(bits_needed(1), 1);
    assert_eq!(bits_needed(2), 2);
    assert_eq!(bits_needed(4096), 13);
    assert_eq!(bits_needed(usize::MAX), usize::BITS);
}

struct Blocks;

impl ProvidePalette<Vec<u64>> for Blocks {
    const EDGE_BITS: u32 = 4;

    fn palette_config(list: &Vec<u64>, bits: u32) -> (Strategy, u32) {
        Self::provide_palette_config(list, bits)
    }

    fn provide_palette_config(_list: &Vec<u64>, bits: u32) -> (Strategy, u32) {
        match bits {
            0 => (Strategy::Singular, 0),
            1..=4 => (Strategy::Array, 4),
            5..=8 => (Strategy::BiMap, bits),
            _ => (Strategy::Direct, 15),
        }
    }
}

#[test]
fn palette_provider() {
    assert_eq!(<Blocks as ProvidePalette<Vec<u64>>>::container_len(), 4096);
    let list = vec![1u64, 2, 3];
    assert_eq!(Blocks::bits(&list, 0), 0);
    assert_eq!(Blocks::bits(&list, 3), 4);
    assert_eq!(Blocks::bits(&list, 100), 7);
    assert_eq!(Blocks::bits(&list, 1000), 10);
}

use rimecraft_core::container::{IndexArray, PalettedContainer, Storage};

type Container = PalettedContainer<Vec<u64>, Blocks>;

fn sorted(mut counts: Vec<(u64, usize)>) -> Vec<(u64, usize)> {
    counts.sort();
    counts
}

#[test]
fn single_container() {
    let list = vec![10u64, 20, 30, 40];
    let c = Container::of_single(list, 10);
    // The storage is empty: every position reads as index zero, which the
    // palette maps to the object.
    assert_eq!(c.get(0), Some(10));
    assert_eq!(c.get(4095), Some(10));
    assert_eq!(c.get(4096), None);
    assert_eq!(c.counts(), vec![(10, 4096)]);
    let slice = c.to_slice();
    assert_eq!(slice.get(7), Some(10));
    assert_eq!(slice.counts(), vec![(10, 4096)]);
}

#[test]
fn container_resizes_from_single() {
    let list = vec![10u64, 20, 30, 40];
    let mut c = Container::of_single(list, 10);
    // A second object makes data for an array palette, which takes the
    // old object over at every position, then the new one.
    c.set(5, 20);
    assert_eq!(c.get(5), Some(20));
    assert_eq!(c.get(0), Some(10));
    assert_eq!(c.get(4095), Some(10));
    assert_eq!(sorted(c.counts()), vec![(10, 4095), (20, 1)]);

    c.set(6, 30);
    assert_eq!(c.get(6), Some(30));
    assert_eq!(c.swap(6, 40), Some(30));
    assert_eq!(c.get(6), Some(40));
    assert_eq!(c.get(5), Some(20));
    assert_eq!(sorted(c.counts()), vec![(10, 4094), (20, 1), (40, 1)]);
    assert_eq!(c.get(4096), None);
    assert_eq!(c.swap(4096, 20), None);

    let slice = c.to_slice();
    assert_eq!(slice.counts(), vec![(10, 4096)]);
}

#[test]
fn full_array_palette_resizes_to_bi_map() {
    let list: Vec<u64> = (0..100).collect();
    let mut c = Container::of_single(list, 0);
    // The array palette of sixteen entries fills up at 15, the bi-map
    // palette of five bits at 31: each resize keeps every object in place.
    for v in 1..41u64 {
        c.set(v as usize, v);
        assert_eq!(c.get(v as usize), Some(v));
    }
    for v in 1..41u64 {
        assert_eq!(c.get(v as usize), Some(v));
    }
    assert_eq!(c.get(0), Some(0));
    assert_eq!(c.get(41), Some(0));
    let counts = sorted(c.counts());
    assert_eq!(counts.len(), 41);
    assert_eq!(counts[0], (0, 4096 - 40));
    assert_eq!(counts[40], (40, 1));
}

#[test]
fn direct_container() {
    let list = vec![10u64, 20, 30, 40];
    let storage = Storage::PackedArray(IndexArray::zeroed(15, 4096));
    let mut c = Container::new(list, (Strategy::Direct, 15), storage, Vec::new());
    assert_eq!(c.get(3), Some(10));
    c.set(3, 30);
    assert_eq!(c.get(3), Some(30));
    // An object the list does not know takes raw id zero.
    c.set(4, 99);
    assert_eq!(c.get(4), Some(10));
    assert_eq!(sorted(c.counts()), vec![(10, 4095), (30, 1)]);
}

#[test]
fn index_arrays() {
    let mut a = IndexArray::zeroed(4, 3);
    assert_eq!(a.len(), 3);
    assert_eq!(a.swap(1, 7), Some(0));
    assert_eq!(a.get(1), Some(7));
    a.set(2, 5);
    assert_eq!(a.get(2), Some(5));
    assert_eq!(a.get(3), None);
    assert_eq!(a.swap(3, 1), None);
    let s = Storage::Empty(9);
    assert_eq!(s.len(), 9);
    assert_eq!(s.get(0), Some(0));
    assert_eq!(s.get(8), Some(0));
    assert_eq!(s.get(9), None);
}

struct Small;

impl ProvidePalette<Vec<u64>> for Small {
    const EDGE_BITS: u32 = 2;

    fn palette_config(list: &Vec<u64>, bits: u32) -> (Strategy, u32) {
        Self::provide_palette_config(list, bits)
    }

    fn provide_palette_config(_list: &Vec<u64>, bits: u32) -> (Strategy, u32) {
        match bits {
            0 => (Strategy::Singular, 0),
            1..=2 => (Strategy::Array, 2),
            _ => (Strategy::Direct, 8),
        }
    }
}

#[test]
fn resizing_to_direct_keeps_objects() {
    let list: Vec<u64> = (0..100).collect();
    let mut c = PalettedContainer::<Vec<u64>, Small>::of_single(list, 0);
    for v in 1..4u64 {
        c.set(v as usize, v);
    }
    assert_eq!(c.get(1), Some(1));
    assert_eq!(c.get(3), Some(3));
    // The array of four entries is full: the data is made anew for a
    // direct palette, which takes each object over by its raw id.
    c.set(4, 4);
    c.set(5, 5);
    c.set(6, 6);
    c.set(7, 7);
    for v in 1..8u64 {
        assert_eq!(c.get(v as usize), Some(v));
    }
    assert_eq!(c.get(60), Some(0));
    assert_eq!(
        sorted(c.counts()),
        vec![(0, 57), (1, 1), (2, 1), (3, 1), (4, 1), (5, 1), (6, 1), (7, 1)]
    );
}
