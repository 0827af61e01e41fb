//! Palettes map objects from and to small integer indices, so that storage
//! can hold the indices in fewer bits than the objects.
//!
//! Objects are identified by their raw `u64` ids; the id list `L` maps them
//! from and to raw ids of the whole game.

use ahash::AHashMap;
use vstd::prelude::*;

use crate::index_map::{u64_map_clone, u64_map_contents, u64_map_get, u64_map_insert, u64_map_new};
use crate::varint::{
    lemma_var_roundtrip, read_var, var_bytes, var_read, width_modulus, write_var, VarIntError,
    VarRead,
};

verus! {

/// The strategy of a palette.
#[derive(Debug, Clone, Copy, PartialEq, Eq, Hash, Structural)]
#[non_exhaustive]
pub enum Strategy {
    /// A palette that only holds a unique entry.
    Singular,
    /// A palette that stores the possible entries in an array
    /// and maps them to their indices in the array.
    Array,
    /// A palette backed by bidirectional hash tables.
    BiMap,
    /// A palette that directly maps the entries to their raw ID.
    Direct,
}

/// Error type for palette operations.
#[derive(Debug, Clone, Copy, PartialEq, Eq)]
#[non_exhaustive]
pub enum Error {
    /// The palette is uninitialized.
    Uninitialized,
    /// The entry is unable to be indexed into an ID.
    UnknownEntry,
    /// The raw ID is unknown.
    UnknownId(usize),
}

/// Types that give the raw ID of an entry.
pub trait IndexToRaw {
    /// The raw ID of the given entry, if it has one.
    spec fn raw_id_of(&self, entry: u64) -> Option<usize>;

    /// Returns the raw ID of the given entry.
    fn raw_id(&self, entry: u64) -> (r: Option<usize>)
        ensures
            r == self.raw_id_of(entry),
    ;
}

/// Types that give the entry of a raw ID.
pub trait IndexFromRaw {
    /// The entry of the given raw ID, if there is one.
    spec fn entry_of(&self, id: usize) -> Option<u64>;

    /// Returns the entry of the given raw ID.
    fn of_raw(&self, id: usize) -> (r: Option<u64>)
        ensures
            r == self.entry_of(id),
    ;
}

/// Id lists whose entries can be listed in the order of their raw IDs.
pub trait ListEntries {
    /// The entries of the list.
    spec fn list_entries(&self) -> Seq<u64>;

    /// Returns the entries of the list.
    fn entries(&self) -> (r: Vec<u64>)
        ensures
            r@ == self.list_entries(),
    ;
}

/// The first position at or after `from` where `e` stands in `s`.
pub open spec fn position_from(s: Seq<u64>, e: u64, from: nat) -> Option<nat>
    decreases s.len() - from,
{
    if from >= s.len() {
        None
    } else if s[from as int] == e {
        Some(from)
    } else {
        position_from(s, e, from + 1)
    }
}

/// The first position where `e` stands in `s`.
pub open spec fn position_of(s: Seq<u64>, e: u64) -> Option<nat> {
    position_from(s, e, 0)
}

pub proof fn lemma_position_from(s: Seq<u64>, e: u64, from: nat)
    ensures
        position_from(s, e, from) matches Some(i) ==> from <= i < s.len() && s[i as int] == e
            && forall|j: int| from <= j < i ==> s[j] != e,
        position_from(s, e, from) is None ==> forall|j: int| from <= j < s.len() ==> s[j] != e,
    decreases s.len() - from,
{
    if from < s.len() && s[from as int] != e {
        lemma_position_from(s, e, from + 1);
    }
}

/// Appending `x` keeps every position found before, and finds `x` at the
/// end where it was not found before.
pub proof fn lemma_position_push(s: Seq<u64>, x: u64, e: u64, from: nat)
    requires
        from <= s.len(),
    ensures
        position_from(s, e, from) is Some ==> position_from(s.push(x), e, from) == position_from(
            s,
            e,
            from,
        ),
        position_from(s, e, from) is None ==> position_from(s.push(x), e, from) == (if x == e {
            Some(s.len())
        } else {
            None::<nat>
        }),
    decreases s.len() - from,
{
    if from < s.len() {
        assert(s.push(x)[from as int] == s[from as int]);
        if s[from as int] != e {
            lemma_position_push(s, x, e, from + 1);
        }
    } else {
        assert(s.push(x)[from as int] == x);
        if x != e {
            assert(position_from(s.push(x), e, from + 1) is None);
        }
    }
}

/// Converts a position found in a sequence into an index.
pub open spec fn nat_to_index(p: Option<nat>) -> Option<usize> {
    match p {
        Some(i) => Some(i as usize),
        None => None,
    }
}

/// The first index of `e` in `v`.
fn position(v: &Vec<u64>, e: u64) -> (r: Option<usize>)
    ensures
        r == nat_to_index(position_of(v@, e)),
{
    let mut i: usize = 0;
    while i < v.len()
        invariant
            i <= v.len(),
            position_of(v@, e) == position_from(v@, e, i as nat),
        decreases v.len() - i,
    {
        if v[i] == e {
            return Some(i);
        }
        i = i + 1;
    }
    None
}

/// A list of entries whose raw IDs are their positions.
impl IndexToRaw for Vec<u64> {
    open spec fn raw_id_of(&self, entry: u64) -> Option<usize> {
        nat_to_index(position_of(self@, entry))
    }

    fn raw_id(&self, entry: u64) -> (r: Option<usize>) {
        position(self, entry)
    }
}

impl IndexFromRaw for Vec<u64> {
    open spec fn entry_of(&self, id: usize) -> Option<u64> {
        if id < self@.len() {
            Some(self@[id as int])
        } else {
            None
        }
    }

    fn of_raw(&self, id: usize) -> (r: Option<u64>) {
        if id < self.len() {
            Some(self[id])
        } else {
            None
        }
    }
}

impl ListEntries for Vec<u64> {
    open spec fn list_entries(&self) -> Seq<u64> {
        self@
    }

    fn entries(&self) -> (r: Vec<u64>) {
        self.clone()
    }
}

/// The palette implementations.
enum PaletteImpl {
    Singular(Option<u64>),
    Array { forward: Vec<u64>, capacity: usize },
    BiMap { forward: Vec<u64>, reverse: AHashMap<u64, u64>, capacity: usize },
    Direct,
}

/// A palette maps object from and to small integer IDs that uses less number of bits
/// to make storage smaller.
///
/// See [`Strategy`] for the available strategies.
pub struct Palette<L> {
    list: L,
    index_bits: u32,
    internal: PaletteImpl,
}

/// Converts a stored index back into an index.
pub open spec fn u64_to_index(p: Option<u64>) -> Option<usize> {
    match p {
        Some(i) => Some(i as usize),
        None => None,
    }
}

impl<L> Palette<L> {
    /// The strategy of this palette.
    pub closed spec fn strategy(&self) -> Strategy {
        match self.internal {
            PaletteImpl::Singular(_) => Strategy::Singular,
            PaletteImpl::Array { .. } => Strategy::Array,
            PaletteImpl::BiMap { .. } => Strategy::BiMap,
            PaletteImpl::Direct => Strategy::Direct,
        }
    }

    /// The number of bits of an index.
    pub closed spec fn bits(&self) -> u32 {
        self.index_bits
    }

    /// The id list of this palette.
    pub closed spec fn id_list(&self) -> L {
        self.list
    }

    /// The entries held by a palette that is not `Direct`, in index order.
    pub closed spec fn stored(&self) -> Seq<u64> {
        match self.internal {
            PaletteImpl::Singular(v) => match v {
                Some(e) => seq![e],
                None => Seq::empty(),
            },
            PaletteImpl::Array { forward, .. } => forward@,
            PaletteImpl::BiMap { forward, .. } => forward@,
            PaletteImpl::Direct => Seq::empty(),
        }
    }

    /// How many entries an `Array` or `BiMap` palette can hold.
    pub closed spec fn capacity(&self) -> nat {
        match self.internal {
            PaletteImpl::Singular(_) => 1,
            PaletteImpl::Array { capacity, .. } => capacity as nat,
            PaletteImpl::BiMap { capacity, .. } => capacity as nat,
            PaletteImpl::Direct => 0,
        }
    }

    /// The reverse index of a `BiMap` palette: entry to index.
    pub closed spec fn reverse_index(&self) -> Map<u64, u64> {
        match self.internal {
            PaletteImpl::BiMap { reverse, .. } => u64_map_contents(reverse),
            _ => Map::empty(),
        }
    }

    /// The reverse index of a `BiMap` palette agrees with its entries: each
    /// entry is indexed, and each indexed entry stands at its index.
    pub open spec fn coherent(&self) -> bool {
        self.strategy() == Strategy::BiMap ==> {
            &&& forall|i: int|
                0 <= i < self.stored().len() ==> #[trigger] self.reverse_index().contains_key(
                    self.stored()[i],
                )
            &&& forall|e: u64| #[trigger]
                self.reverse_index().contains_key(e) ==> self.reverse_index()[e]
                    < self.stored().len() && self.stored()[self.reverse_index()[e] as int] == e
        }
    }

    /// Invariant of every palette.
    pub open spec fn wf(&self) -> bool {
        &&& self.stored().len() <= self.capacity()
        &&& self.capacity() <= usize::MAX
        &&& self.bits() < 64
        &&& (self.strategy() == Strategy::Singular || self.strategy() == Strategy::Direct)
            ==> self.bits() == 0
        &&& self.strategy() == Strategy::Singular ==> self.capacity() == 1
    }

    /// Whether an `Array` or `BiMap` palette holds `2 ** bits` entries, as
    /// a new one does; decoding one in place takes the capacity from the
    /// number of entries read instead.
    pub open spec fn sized(&self) -> bool {
        (self.strategy() == Strategy::Array || self.strategy() == Strategy::BiMap)
            ==> self.capacity() == pow2_usize(self.bits())
    }

    /// What [`Self::index`] gives for `object`.
    pub open spec fn index_spec(&self, object: u64) -> Option<usize>
        where L: IndexToRaw
    {
        match self.strategy() {
            Strategy::Singular => if self.stored() == seq![object] {
                Some(0usize)
            } else {
                None
            },
            Strategy::Array => nat_to_index(position_of(self.stored(), object)),
            Strategy::BiMap => u64_to_index(
                if self.reverse_index().contains_key(object) {
                    Some(self.reverse_index()[object])
                } else {
                    None
                },
            ),
            Strategy::Direct => match self.id_list().raw_id_of(object) {
                Some(r) => Some(r),
                None => Some(0usize),
            },
        }
    }

    /// What [`Self::get`] gives for `id`.
    pub open spec fn get_spec(&self, id: usize) -> Option<u64>
        where L: IndexFromRaw
    {
        if self.strategy() == Strategy::Direct {
            self.id_list().entry_of(id)
        } else if id < self.stored().len() {
            Some(self.stored()[id as int])
        } else {
            None
        }
    }

    /// What [`Self::iter`] lists.
    pub open spec fn entries_spec(&self) -> Seq<u64>
        where L: ListEntries
    {
        if self.strategy() == Strategy::Direct {
            self.id_list().list_entries()
        } else {
            self.stored()
        }
    }
}

/// Whether `new` accepts the given configuration: a singular palette takes
/// no index bits and at most one entry, an array or bi-map palette at most
/// `2 ** bits_size` entries.
pub open spec fn new_accepts(strategy: Strategy, bits_size: u32, entries_len: nat) -> bool {
    match strategy {
        Strategy::Singular => bits_size == 0 && entries_len <= 1,
        Strategy::Array | Strategy::BiMap => bits_size < usize::BITS && entries_len
            <= pow2_usize(bits_size),
        Strategy::Direct => true,
    }
}

/// `2 ** n` for shifts that fit a `usize`.
pub open spec fn pow2_usize(n: u32) -> nat {
    (1usize << n) as nat
}

impl<L> Palette<L> {
    /// Creates a new palette with the given strategy and list of entries.
    pub fn new(strategy: Strategy, bits_size: u32, list: L, entries: Vec<u64>) -> (r: Self)
        requires
            new_accepts(strategy, bits_size, entries@.len()),
        ensures
            r.wf(),
            r.coherent(),
            r.strategy() == strategy,
            r.id_list() == list,
            r.bits() == (if strategy == Strategy::Array || strategy == Strategy::BiMap {
                bits_size
            } else {
                0
            }),
            strategy != Strategy::Direct ==> r.stored() == entries@,
            strategy == Strategy::Direct ==> r.stored() == Seq::<u64>::empty(),
            (strategy == Strategy::Array || strategy == Strategy::BiMap) ==> r.capacity()
                == pow2_usize(bits_size),
            strategy == Strategy::Singular ==> r.capacity() == 1,
            r.sized(),
            strategy == Strategy::BiMap ==> forall|e: u64| #[trigger]
                r.reverse_index().contains_key(e) ==> forall|j: int|
                    r.reverse_index()[e] < j < entries@.len() ==> entries@[j] != e,
    {
        match strategy {
            Strategy::Singular => {
                let first = if entries.len() == 0 {
                    None
                } else {
                    Some(entries[0])
                };
                let r = Palette { list, index_bits: 0, internal: PaletteImpl::Singular(first) };
                assert(r.stored() == entries@);
                r
            },
            Strategy::Array => {
                let capacity: usize = 1usize << bits_size;
                Palette {
                    list,
                    index_bits: bits_size,
                    internal: PaletteImpl::Array { forward: entries, capacity },
                }
            },
            Strategy::BiMap => {
                let capacity: usize = 1usize << bits_size;
                let mut reverse = u64_map_new();
                let mut i: usize = 0;
                while i < entries.len()
                    invariant
                        i <= entries.len(),
                        entries.len() <= capacity,
                        forall|j: int|
                            0 <= j < i ==> #[trigger] u64_map_contents(reverse).contains_key(
                                entries@[j],
                            ),
                        forall|e: u64| #[trigger]
                            u64_map_contents(reverse).contains_key(e) ==> {
                                let k = u64_map_contents(reverse)[e];
                                &&& k < i
                                &&& entries@[k as int] == e
                                &&& forall|j: int| k < j < i ==> entries@[j] != e
                            },
                    decreases entries.len() - i,
                {
                    let e = entries[i];
                    u64_map_insert(&mut reverse, e, i as u64);
                    i = i + 1;
                }
                let r = Palette {
                    list,
                    index_bits: bits_size,
                    internal: PaletteImpl::BiMap { forward: entries, reverse, capacity },
                };
                r
            },
            Strategy::Direct => Palette { list, index_bits: 0, internal: PaletteImpl::Direct },
        }
    }

    /// Returns the strategy and the bits size.
    pub fn config(&self) -> (r: (Strategy, u32))
        ensures
            r == (self.strategy(), self.bits()),
    {
        let s = match &self.internal {
            PaletteImpl::Singular(_) => Strategy::Singular,
            PaletteImpl::Array { .. } => Strategy::Array,
            PaletteImpl::BiMap { .. } => Strategy::BiMap,
            PaletteImpl::Direct => Strategy::Direct,
        };
        (s, self.index_bits)
    }
}

impl<L: Clone> Clone for Palette<L> {
    /// A palette with the same strategy, bits, entries and capacity, over a
    /// clone of the id list.
    fn clone(&self) -> (r: Self)
        ensures
            r.strategy() == self.strategy(),
            r.bits() == self.bits(),
            r.stored() == self.stored(),
            r.capacity() == self.capacity(),
            r.reverse_index() == self.reverse_index(),
            cloned(self.id_list(), r.id_list()),
    {
        let internal = match &self.internal {
            PaletteImpl::Singular(v) => PaletteImpl::Singular(*v),
            PaletteImpl::Array { forward, capacity } => {
                let f = forward.clone();
                proof {
                    assert(f@ =~= forward@);
                }
                PaletteImpl::Array { forward: f, capacity: *capacity }
            },
            PaletteImpl::BiMap { forward, reverse, capacity } => {
                let f = forward.clone();
                proof {
                    assert(f@ =~= forward@);
                }
                PaletteImpl::BiMap { forward: f, reverse: u64_map_clone(reverse), capacity: *capacity }
            },
            PaletteImpl::Direct => PaletteImpl::Direct,
        };
        Palette { list: self.list.clone(), index_bits: self.index_bits, internal }
    }
}

/// A clone of a palette that is not direct indexes every object as the
/// palette does, and has room exactly when the palette has, so both accept
/// the same inserts; an array or bi-map palette of `2 ** bits` entries has
/// room while it holds fewer. A direct palette takes its ids from its list,
/// which is cloned as the list's type clones.
pub proof fn lemma_clone_indexes_alike<L: IndexToRaw>(p: Palette<L>, q: Palette<L>, o: u64)
    requires
        p.strategy() != Strategy::Direct,
        q.strategy() == p.strategy(),
        q.bits() == p.bits(),
        q.stored() == p.stored(),
        q.capacity() == p.capacity(),
        q.reverse_index() == p.reverse_index(),
    ensures
        q.index_spec(o) == p.index_spec(o),
        q.stored().len() < q.capacity() <==> p.stored().len() < p.capacity(),
        p.sized() ==> q.sized(),
        p.sized() && p.strategy() != Strategy::Singular ==> (q.stored().len() < q.capacity()
            <==> p.stored().len() < pow2_usize(p.bits())),
{
}

impl<L: IndexToRaw> Palette<L> {
    /// Returns the ID of an object in the palette.
    pub fn index(&self, object: u64) -> (r: Option<usize>)
        ensures
            r == self.index_spec(object),
    {
        match &self.internal {
            PaletteImpl::Singular(value) => match value {
                Some(v) => if *v == object {
                    Some(0)
                } else {
                    None
                },
                None => None,
            },
            PaletteImpl::Array { forward, .. } => position(forward, object),
            PaletteImpl::BiMap { reverse, .. } => match u64_map_get(reverse, object) {
                Some(i) => Some(i as usize),
                None => None,
            },
            PaletteImpl::Direct => match self.list.raw_id(object) {
                Some(r) => Some(r),
                None => Some(0),
            },
        }
    }
}

impl<L: IndexToRaw> Palette<L> {
    /// Returns the ID of an object in the palette, or inserts it if absent.
    ///
    /// Returns `Err` with the index bits a palette needs to hold the object,
    /// and the object, when this palette is too small to take it.
    pub fn index_or_insert(&mut self, object: u64) -> (r: Result<usize, (u32, u64)>)
        requires
            old(self).wf(),
        ensures
            final(self).wf(),
            old(self).coherent() ==> final(self).coherent(),
            final(self).strategy() == old(self).strategy(),
            final(self).bits() == old(self).bits(),
            final(self).id_list() == old(self).id_list(),
            final(self).capacity() == old(self).capacity(),
            old(self).coherent() && old(self).strategy() != Strategy::Direct ==> (r matches Ok(i)
                ==> i < final(self).stored().len() && final(self).stored()[i as int] == object),
            old(self).coherent() ==> (r matches Ok(i) ==> final(self).index_spec(object) == Some(i)),
            r is Err ==> final(self).index_spec(object) is None,
            match old(self).index_spec(object) {
                Some(i) => r == Ok::<usize, (u32, u64)>(i) && *final(self) == *old(self),
                None => if old(self).stored().len() < old(self).capacity() {
                    &&& r == Ok::<usize, (u32, u64)>(old(self).stored().len() as usize)
                    &&& final(self).stored() == old(self).stored().push(object)
                    &&& final(self).reverse_index() == (if old(self).strategy() == Strategy::BiMap {
                        old(self).reverse_index().insert(object, old(self).stored().len() as u64)
                    } else {
                        old(self).reverse_index()
                    })
                } else {
                    &&& r == Err::<usize, (u32, u64)>(((old(self).bits() + 1) as u32, object))
                    &&& *final(self) == *old(self)
                },
            },
    {
        let bits = self.index_bits;
        match &mut self.internal {
            PaletteImpl::Singular(value) => {
                match value {
                    Some(entry) => {
                        if *entry != object {
                            return Err((1, object));
                        }
                    },
                    None => {
                        *value = Some(object);
                    },
                }
                Ok(0)
            },
            PaletteImpl::Array { forward, capacity } => {
                proof {
                    lemma_position_from(forward@, object, 0);
                }
                if let Some(index) = position(forward, object) {
                    Ok(index)
                } else if *capacity > forward.len() {
                    let index = forward.len();
                    proof {
                        lemma_position_push(forward@, object, object, 0);
                    }
                    forward.push(object);
                    Ok(index)
                } else {
                    Err((bits + 1, object))
                }
            },
            PaletteImpl::BiMap { forward, reverse, capacity } => {
                if let Some(index) = u64_map_get(reverse, object) {
                    Ok(index as usize)
                } else if *capacity > forward.len() {
                    let index = forward.len();
                    forward.push(object);
                    u64_map_insert(reverse, object, index as u64);
                    Ok(index)
                } else {
                    Err((bits + 1, object))
                }
            },
            PaletteImpl::Direct => {
                match self.list.raw_id(object) {
                    Some(r) => Ok(r),
                    None => Ok(0),
                }
            },
        }
    }
}

/// No entry stands twice.
pub open spec fn distinct(s: Seq<u64>) -> bool {
    forall|i: int, j: int| 0 <= i < j < s.len() ==> s[i] != s[j]
}

/// In a palette that is not `Direct`, whose reverse index agrees with its
/// entries and whose entries are distinct, the index of an object is the
/// position where it is stored, and each stored object is found at its own
/// position: `get` and `index` undo each other.
pub proof fn lemma_index_get_inverse<L: IndexToRaw>(p: Palette<L>)
    requires
        p.wf(),
        p.coherent(),
        p.strategy() != Strategy::Direct,
        distinct(p.stored()),
    ensures
        forall|x: u64|
            #![trigger p.index_spec(x)]
            p.index_spec(x) matches Some(i) ==> i < p.stored().len() && p.stored()[i as int] == x,
        forall|i: int| 0 <= i < p.stored().len() ==> p.index_spec(#[trigger] p.stored()[i]) == Some(
            i as usize,
        ),
{
    assert forall|x: u64| #![trigger p.index_spec(x)]
        p.index_spec(x) is Some implies p.index_spec(x).unwrap() < p.stored().len()
            && p.stored()[p.index_spec(x).unwrap() as int] == x by {
        lemma_position_from(p.stored(), x, 0);
    }
    assert forall|i: int| 0 <= i < p.stored().len() implies p.index_spec(
        #[trigger] p.stored()[i],
    ) == Some(i as usize) by {
        let x = p.stored()[i];
        lemma_position_from(p.stored(), x, 0);
        if p.strategy() == Strategy::BiMap {
            assert(p.reverse_index().contains_key(x));
            let k = p.reverse_index()[x] as int;
            assert(p.stored()[k] == x);
        }
    }
}

/// Inserting into a palette keeps its entries distinct.
pub proof fn lemma_insert_keeps_distinct<L: IndexToRaw>(p: Palette<L>, x: u64)
    requires
        p.wf(),
        p.coherent(),
        p.strategy() != Strategy::Direct,
        distinct(p.stored()),
        p.index_spec(x) is None,
    ensures
        distinct(p.stored().push(x)),
{
    lemma_position_from(p.stored(), x, 0);
    let s = p.stored().push(x);
    assert forall|i: int, j: int| 0 <= i < j < s.len() implies s[i] != s[j] by {
        if j == p.stored().len() {
            if p.strategy() == Strategy::BiMap {
                assert(p.reverse_index().contains_key(p.stored()[i]));
            }
        }
    }
}

impl<L: IndexFromRaw> Palette<L> {
    /// Returns the object associated with the given ID.
    pub fn get(&self, id: usize) -> (r: Option<u64>)
        ensures
            r == self.get_spec(id),
    {
        match &self.internal {
            PaletteImpl::Singular(value) => if id == 0 {
                *value
            } else {
                None
            },
            PaletteImpl::Array { forward, .. } => if id < forward.len() {
                Some(forward[id])
            } else {
                None
            },
            PaletteImpl::BiMap { forward, .. } => if id < forward.len() {
                Some(forward[id])
            } else {
                None
            },
            PaletteImpl::Direct => self.list.of_raw(id),
        }
    }
}

impl<L: ListEntries> Palette<L> {
    /// Returns the size of this palette.
    pub fn len(&self) -> (r: usize)
        ensures
            r == self.entries_spec().len(),
    {
        match &self.internal {
            PaletteImpl::Singular(value) => if value.is_some() {
                1
            } else {
                0
            },
            PaletteImpl::Array { forward, .. } => forward.len(),
            PaletteImpl::BiMap { forward, .. } => forward.len(),
            PaletteImpl::Direct => self.list.entries().len(),
        }
    }

    /// Returns the entries of the palette, in index order.
    pub fn iter(&self) -> (r: Vec<u64>)
        ensures
            r@ == self.entries_spec(),
    {
        match &self.internal {
            PaletteImpl::Singular(value) => {
                let mut v = Vec::new();
                if let Some(e) = value {
                    v.push(*e);
                }
                v
            },
            PaletteImpl::Array { forward, .. } => forward.clone(),
            PaletteImpl::BiMap { forward, .. } => forward.clone(),
            PaletteImpl::Direct => self.list.entries(),
        }
    }
}

/// The raw ids of the entries, each written as a variable-length integer of
/// 32 bits; none when an entry has no raw id.
pub open spec fn entries_bytes<L: IndexToRaw>(list: L, s: Seq<u64>) -> Option<Seq<u8>>
    decreases s.len(),
{
    if s.len() == 0 {
        Some(Seq::empty())
    } else {
        match (entries_bytes(list, s.drop_last()), list.raw_id_of(s.last())) {
            (Some(b), Some(r)) => Some(b + var_bytes((r as u32) as nat)),
            _ => None,
        }
    }
}

impl<L: IndexToRaw> Palette<L> {
    /// What encoding the palette writes, or the error it fails with: a
    /// singular palette writes the raw id of its entry, an array or bi-map
    /// palette the number of its entries and then their raw ids, a direct
    /// palette nothing.
    pub open spec fn encoding(&self) -> Result<Seq<u8>, Error> {
        match self.strategy() {
            Strategy::Singular => if self.stored().len() == 0 {
                Err(Error::Uninitialized)
            } else {
                match self.id_list().raw_id_of(self.stored()[0]) {
                    Some(r) => Ok(var_bytes((r as u32) as nat)),
                    None => Err(Error::UnknownEntry),
                }
            },
            Strategy::Array | Strategy::BiMap => match entries_bytes(
                self.id_list(),
                self.stored(),
            ) {
                Some(b) => Ok(var_bytes((self.stored().len() as u32) as nat) + b),
                None => Err(Error::UnknownEntry),
            },
            Strategy::Direct => Ok(Seq::empty()),
        }
    }

    /// Encodes the palette into the buffer. On failure the buffer may hold
    /// what was written before the entry that has no raw id.
    pub fn encode(&self, buf: &mut Vec<u8>) -> (r: Result<(), Error>)
        ensures
            self.encoding() matches Ok(b) ==> r is Ok && final(buf)@ == old(buf)@ + b,
            self.encoding() matches Err(e) ==> r == Err::<(), Error>(e),
    {
        match &self.internal {
            PaletteImpl::Singular(value) => match value {
                None => Err(Error::Uninitialized),
                Some(v) => match self.list.raw_id(*v) {
                    None => Err(Error::UnknownEntry),
                    Some(raw) => {
                        write_var(buf, (raw as u32) as u64);
                        Ok(())
                    },
                },
            },
            PaletteImpl::Array { forward, .. } => self.encode_entries(forward, buf),
            PaletteImpl::BiMap { forward, .. } => self.encode_entries(forward, buf),
            PaletteImpl::Direct => Ok(()),
        }
    }

    /// Writes the number of entries and then their raw ids.
    fn encode_entries(&self, forward: &Vec<u64>, buf: &mut Vec<u8>) -> (r: Result<(), Error>)
        ensures
            entries_bytes(self.id_list(), forward@) matches Some(b) ==> r is Ok && final(buf)@
                == old(buf)@ + var_bytes((forward@.len() as u32) as nat) + b,
            entries_bytes(self.id_list(), forward@) is None ==> r == Err::<(), Error>(
                Error::UnknownEntry,
            ),
    {
        let ghost start = buf@;
        write_var(buf, (forward.len() as u32) as u64);
        let ghost head = buf@;
        let mut i: usize = 0;
        while i < forward.len()
            invariant
                i <= forward.len(),
                head == start + var_bytes((forward@.len() as u32) as nat),
                entries_bytes(self.id_list(), forward@.take(i as int)) matches Some(b) && buf@
                    == head + b,
            decreases forward.len() - i,
        {
            let e = forward[i];
            proof {
                assert(forward@.take(i + 1 as int).drop_last() =~= forward@.take(i as int));
            }
            match self.list.raw_id(e) {
                None => {
                    proof {
                        lemma_entries_bytes_none(self.id_list(), forward@, i as int);
                    }
                    return Err(Error::UnknownEntry);
                },
                Some(raw) => {
                    write_var(buf, (raw as u32) as u64);
                },
            }
            i = i + 1;
        }
        proof {
            assert(forward@.take(forward.len() as int) =~= forward@);
        }
        Ok(())
    }
}

/// Once an entry has no raw id, no longer run of entries has bytes.
proof fn lemma_entries_bytes_none<L: IndexToRaw>(list: L, s: Seq<u64>, i: int)
    requires
        0 <= i < s.len(),
        list.raw_id_of(s[i]) is None,
    ensures
        entries_bytes(list, s) is None,
    decreases s.len(),
{
    if i < s.len() - 1 {
        lemma_entries_bytes_none(list, s.drop_last(), i);
    }
}

/// Errors of decoding a palette.
#[derive(Debug, Clone, Copy, PartialEq, Eq)]
pub enum DecodeError {
    /// The raw id read is of no entry of the id list.
    Palette(Error),
    /// A variable-length integer is malformed.
    VarInt(VarIntError),
}

/// What reading entries by their raw ids one after another gives.
pub enum EntriesRead {
    /// Every entry was read: the entries and the bytes they took.
    Done { entries: Seq<u64>, len: nat },
    /// Reading stopped with an error after the entries read before it.
    Failed { entries: Seq<u64>, error: DecodeError },
    /// The buffer ends before the entries do.
    RunsOut,
}

/// What reading `n` entries by their raw ids, each a variable-length
/// integer of 32 bits, from the front of `buf` gives.
pub open spec fn read_entries<L: IndexFromRaw>(list: L, buf: Seq<u8>, n: nat) -> EntriesRead
    decreases n,
{
    if n == 0 {
        EntriesRead::Done { entries: Seq::empty(), len: 0 }
    } else {
        match read_entries(list, buf, (n - 1) as nat) {
            EntriesRead::Done { entries, len } => match var_read(
                buf.subrange(len as int, buf.len() as int),
                32,
            ) {
                VarRead::Value { value, len: l } => match list.entry_of(value as usize) {
                    Some(e) => EntriesRead::Done { entries: entries.push(e), len: len + l },
                    None => EntriesRead::Failed {
                        entries,
                        error: DecodeError::Palette(Error::UnknownId(value as usize)),
                    },
                },
                VarRead::TooLarge => EntriesRead::Failed {
                    entries,
                    error: DecodeError::VarInt(VarIntError::TooLarge),
                },
                VarRead::RunsOut => EntriesRead::RunsOut,
            },
            other => other,
        }
    }
}

/// The bytes of `buf` after the first `n`.
pub open spec fn skip(buf: Seq<u8>, n: nat) -> Seq<u8> {
    buf.subrange(n as int, buf.len() as int)
}

impl<L: IndexFromRaw> Palette<L> {
    /// Whether decoding this palette from the buffer reads no further than
    /// its end.
    pub open spec fn decodable(&self, buf: Seq<u8>) -> bool {
        match self.strategy() {
            Strategy::Singular => !(var_read(buf, 32) is RunsOut),
            Strategy::Array | Strategy::BiMap => match var_read(buf, 32) {
                VarRead::Value { value, len } => !(read_entries(
                    self.id_list(),
                    skip(buf, len),
                    value,
                ) is RunsOut),
                VarRead::TooLarge => true,
                VarRead::RunsOut => false,
            },
            Strategy::Direct => true,
        }
    }

    /// Decodes the entries of the palette from the front of the buffer, in
    /// place, and returns the number of bytes taken. A singular palette
    /// reads the raw id of its entry; an array or bi-map palette the number
    /// of its entries and then their raw ids, its entries being those read
    /// so far when a raw id fails, and its capacity the number read; a
    /// direct palette reads nothing. A bi-map palette keeps its reverse
    /// index as it was.
    pub fn decode_in_place(&mut self, buf: &[u8]) -> (r: Result<usize, DecodeError>)
        requires
            old(self).wf(),
            old(self).decodable(buf@),
        ensures
            final(self).strategy() == old(self).strategy(),
            final(self).bits() == old(self).bits(),
            final(self).id_list() == old(self).id_list(),
            final(self).reverse_index() == old(self).reverse_index(),
            old(self).strategy() == Strategy::Direct ==> r == Ok::<usize, DecodeError>(0)
                && final(self).stored() == old(self).stored(),
            old(self).strategy() == Strategy::Singular ==> match var_read(buf@, 32) {
                VarRead::Value { value, len } => match old(self).id_list().entry_of(
                    value as usize,
                ) {
                    Some(e) => r == Ok::<usize, DecodeError>(len as usize) && final(self).stored()
                        == seq![e],
                    None => r == Err::<usize, DecodeError>(
                        DecodeError::Palette(Error::UnknownId(value as usize)),
                    ) && final(self).stored() == old(self).stored(),
                },
                VarRead::TooLarge => r == Err::<usize, DecodeError>(
                    DecodeError::VarInt(VarIntError::TooLarge),
                ) && final(self).stored() == old(self).stored(),
                VarRead::RunsOut => false,
            },
            (old(self).strategy() == Strategy::Array || old(self).strategy() == Strategy::BiMap)
                ==> match var_read(buf@, 32) {
                VarRead::Value { value, len } => final(self).capacity() == value && match read_entries(
                    old(self).id_list(),
                    skip(buf@, len),
                    value,
                ) {
                    EntriesRead::Done { entries, len: l } => r == Ok::<usize, DecodeError>(
                        (len + l) as usize,
                    ) && final(self).stored() == entries,
                    EntriesRead::Failed { entries, error } => r == Err::<usize, DecodeError>(
                        error,
                    ) && final(self).stored() == entries,
                    EntriesRead::RunsOut => false,
                },
                VarRead::TooLarge => r == Err::<usize, DecodeError>(
                    DecodeError::VarInt(VarIntError::TooLarge),
                ) && *final(self) == *old(self),
                VarRead::RunsOut => false,
            },
            r is Ok ==> final(self).wf(),
    {
        match &mut self.internal {
            PaletteImpl::Singular(entry) => {
                match read_var(buf, 32) {
                    Err(e) => Err(DecodeError::VarInt(e)),
                    Ok((id, n)) => match self.list.of_raw(id as usize) {
                        None => Err(DecodeError::Palette(Error::UnknownId(id as usize))),
                        Some(e) => {
                            *entry = Some(e);
                            Ok(n)
                        },
                    },
                }
            },
            PaletteImpl::Array { forward, capacity } => {
                let r = Self::decode_entries(&self.list, buf);
                match r {
                    Err(e) => Err(e),
                    Ok((entries, cap, res)) => {
                        *forward = entries;
                        *capacity = cap;
                        res
                    },
                }
            },
            PaletteImpl::BiMap { forward, capacity, .. } => {
                let r = Self::decode_entries(&self.list, buf);
                match r {
                    Err(e) => Err(e),
                    Ok((entries, cap, res)) => {
                        *forward = entries;
                        *capacity = cap;
                        res
                    },
                }
            },
            PaletteImpl::Direct => Ok(0),
        }
    }

    /// Reads the number of entries and then the entries by their raw ids:
    /// an error reading the number comes back as is; else the entries read,
    /// the number read, and the bytes taken or the error that stopped them.
    fn decode_entries(list: &L, buf: &[u8]) -> (r: Result<
        (Vec<u64>, usize, Result<usize, DecodeError>),
        DecodeError,
    >)
        requires
            !(var_read(buf@, 32) is RunsOut),
            var_read(buf@, 32) matches VarRead::Value { value, len } ==> !(read_entries(
                *list,
                skip(buf@, len),
                value,
            ) is RunsOut),
        ensures
            match var_read(buf@, 32) {
                VarRead::Value { value, len } => r is Ok && r->Ok_0.1 == value && match read_entries(
                    *list,
                    skip(buf@, len),
                    value,
                ) {
                    EntriesRead::Done { entries, len: l } => r->Ok_0.2 == Ok::<usize, DecodeError>(
                        (len + l) as usize,
                    ) && r->Ok_0.0@ == entries,
                    EntriesRead::Failed { entries, error } => r->Ok_0.2 == Err::<
                        usize,
                        DecodeError,
                    >(error) && r->Ok_0.0@ == entries,
                    EntriesRead::RunsOut => false,
                },
                VarRead::TooLarge => r == Err::<
                    (Vec<u64>, usize, Result<usize, DecodeError>),
                    DecodeError,
                >(DecodeError::VarInt(VarIntError::TooLarge)),
                VarRead::RunsOut => false,
            },
            r is Ok ==> r->Ok_0.0@.len() <= r->Ok_0.1,
    {
        let (count, head) = match read_var(buf, 32) {
            Err(e) => return Err(DecodeError::VarInt(e)),
            Ok(v) => v,
        };
        let rest = &buf[head..buf.len()];
        let ghost rs = rest@;
        proof {
            assert(rs == skip(buf@, head as nat));
        }
        let n: usize = count as usize;
        let mut entries: Vec<u64> = Vec::new();
        let mut pos: usize = 0;
        let mut k: usize = 0;
        while k < n
            invariant
                k <= n,
                n == count,
                rest@ == rs,
                !(read_entries(*list, rs, n as nat) is RunsOut),
                read_entries(*list, rs, k as nat) == (EntriesRead::Done {
                    entries: entries@,
                    len: pos as nat,
                }),
                pos <= rs.len(),
                entries@.len() == k,
                rs == skip(buf@, head as nat),
                var_read(buf@, 32) == (VarRead::Value { value: n as nat, len: head as nat }),
                head <= buf@.len(),
            decreases n - k,
        {
            let tail = &rest[pos..rest.len()];
            proof {
                lemma_read_entries_prefix(*list, rs, k as nat, n as nat);
                assert(tail@ == rs.subrange(pos as int, rs.len() as int));
            }
            match read_var(tail, 32) {
                Err(e) => {
                    proof {
                        assert(read_entries(*list, rs, (k + 1) as nat) == (EntriesRead::Failed {
                            entries: entries@,
                            error: DecodeError::VarInt(VarIntError::TooLarge),
                        }));
                        lemma_read_entries_failed(*list, rs, (k + 1) as nat, n as nat);
                    }
                    return Ok((entries, n, Err(DecodeError::VarInt(e))));
                },
                Ok((id, used)) => match list.of_raw(id as usize) {
                    None => {
                        proof {
                            assert(read_entries(*list, rs, (k + 1) as nat) == (EntriesRead::Failed {
                                entries: entries@,
                                error: DecodeError::Palette(Error::UnknownId(id as usize)),
                            }));
                            lemma_read_entries_failed(*list, rs, (k + 1) as nat, n as nat);
                        }
                        return Ok((entries, n, Err(DecodeError::Palette(Error::UnknownId(id as usize)))));
                    },
                    Some(e) => {
                        entries.push(e);
                        pos = pos + used;
                    },
                },
            }
            k = k + 1;
        }
        proof {
            assert(head + pos <= buf@.len());
        }
        Ok((entries, n, Ok(head + pos)))
    }
}

/// Once reading `n` entries does not run out, neither does reading fewer.
proof fn lemma_read_entries_prefix<L: IndexFromRaw>(list: L, buf: Seq<u8>, k: nat, n: nat)
    requires
        k < n,
        !(read_entries(list, buf, n) is RunsOut),
        read_entries(list, buf, k) is Done,
    ensures
        !(read_entries(list, buf, k + 1) is RunsOut),
    decreases n - k,
{
    if k + 1 < n {
        if read_entries(list, buf, k + 1) is RunsOut {
            lemma_runs_out_stays(list, buf, k + 1, n);
        }
    }
}

/// Once reading runs out, reading more does too.
proof fn lemma_runs_out_stays<L: IndexFromRaw>(list: L, buf: Seq<u8>, k: nat, n: nat)
    requires
        k <= n,
        read_entries(list, buf, k) is RunsOut,
    ensures
        read_entries(list, buf, n) is RunsOut,
    decreases n - k,
{
    if k < n {
        lemma_runs_out_stays(list, buf, k, (n - 1) as nat);
    }
}

/// Once reading fails, reading more fails the same way.
proof fn lemma_read_entries_failed<L: IndexFromRaw>(list: L, buf: Seq<u8>, k: nat, n: nat)
    requires
        k <= n,
        read_entries(list, buf, k) is Failed,
    ensures
        read_entries(list, buf, n) == read_entries(list, buf, k),
    decreases n - k,
{
    if k < n {
        lemma_read_entries_failed(list, buf, k, (n - 1) as nat);
    }
}

/// The id list gives every entry of `s` a raw id of 32 bits that it maps
/// back to the entry.
pub open spec fn ids_roundtrip<L: IndexToRaw + IndexFromRaw>(list: L, s: Seq<u64>) -> bool {
    forall|i: int|
        0 <= i < s.len() ==> match list.raw_id_of(#[trigger] s[i]) {
            Some(r) => r < 0x1_0000_0000 && list.entry_of(r) == Some(s[i]),
            None => false,
        }
}

/// Reading back the raw ids written for entries gives the entries.
proof fn lemma_read_entries_bytes<L: IndexToRaw + IndexFromRaw>(
    list: L,
    s: Seq<u64>,
    rest: Seq<u8>,
)
    requires
        ids_roundtrip(list, s),
    ensures
        entries_bytes(list, s) is Some,
        read_entries(list, entries_bytes(list, s)->0 + rest, s.len()) == (EntriesRead::Done {
            entries: s,
            len: entries_bytes(list, s)->0.len(),
        }),
    decreases s.len(),
{
    if s.len() > 0 {
        let t = s.drop_last();
        let e = s.last();
        assert(ids_roundtrip(list, t)) by {
            assert forall|i: int| 0 <= i < t.len() implies match list.raw_id_of(#[trigger] t[i]) {
                Some(r) => r < 0x1_0000_0000 && list.entry_of(r) == Some(t[i]),
                None => false,
            } by {
                assert(t[i] == s[i]);
            }
        }
        let r = list.raw_id_of(s[s.len() - 1])->0;
        assert(e == s[s.len() - 1]);
        let v = var_bytes((r as u32) as nat);
        assert((r as u32) as nat == r as nat);
        lemma_read_entries_bytes(list, t, v + rest);
        let bt = entries_bytes(list, t)->0;
        let b = entries_bytes(list, s)->0;
        assert(b == bt + v);
        assert(b + rest =~= bt + (v + rest));
        let buf = b + rest;
        assert(skip(buf, bt.len()) =~= v + rest);
        assert(width_modulus(32) == 0x1_0000_0000);
        lemma_var_roundtrip(r as nat, 32, rest);
        assert(t.push(e) =~= s);
        assert(read_entries(list, buf, (s.len() - 1) as nat) == (EntriesRead::Done {
            entries: t,
            len: bt.len(),
        }));
        assert(var_read(buf.subrange(bt.len() as int, buf.len() as int), 32) == (VarRead::Value {
            value: r as nat,
            len: v.len(),
        }));
        assert(list.entry_of((r as nat) as usize) == Some(e));
    } else {
        assert(s =~= Seq::<u64>::empty());
    }
}

/// Decoding what an array or bi-map palette encodes gives back its
/// entries, whatever follows, when its id list maps each entry to a raw id
/// of 32 bits and back.
pub proof fn lemma_palette_roundtrip<L: IndexToRaw + IndexFromRaw>(p: &Palette<L>, rest: Seq<u8>)
    requires
        p.strategy() == Strategy::Array || p.strategy() == Strategy::BiMap,
        ids_roundtrip(p.id_list(), p.stored()),
        p.stored().len() < 0x1_0000_0000,
    ensures
        p.encoding() is Ok,
        ({
            let buf = p.encoding()->Ok_0 + rest;
            let head = var_bytes(p.stored().len());
            &&& var_read(buf, 32) == (VarRead::Value {
                value: p.stored().len(),
                len: head.len(),
            })
            &&& read_entries(p.id_list(), skip(buf, head.len()), p.stored().len()) matches EntriesRead::Done {
                entries,
                len,
            } && entries == p.stored() && head.len() + len == p.encoding()->Ok_0.len()
        }),
{
    let list = p.id_list();
    let st = p.stored();
    lemma_read_entries_bytes(list, st, rest);
    let b = entries_bytes(list, st)->0;
    let head = var_bytes(st.len());
    assert((st.len() as u32) as nat == st.len());
    assert(p.encoding() == Ok::<Seq<u8>, Error>(head + b));
    let buf = head + b + rest;
    assert(buf =~= head + (b + rest));
    assert(width_modulus(32) == 0x1_0000_0000);
    lemma_var_roundtrip(st.len(), 32, b + rest);
    assert(skip(buf, head.len()) =~= b + rest);
}

} // verus!
