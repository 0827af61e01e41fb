//! Tracked entity data: values that entities keep in a data tracker, with
//! flags saying which values changed and which must be sent to clients.
//!
//! Entity types are identified by raw `u64` ids, and tracked values by `u64`
//! values that stand for them.

use ahash::AHashMap;
use vstd::prelude::*;

use crate::context::GlobalContext;
use crate::index_map::{u64_map_contents, u64_map_get, u64_map_insert, u64_map_new};
use crate::local_cx::ProvideLocalCxTy;
use crate::packet::{Decode, Encode, PacketError};
use crate::varint::{
    lemma_var_roundtrip, read_var, var_bytes, var_read, var_runs_out, width_modulus, write_var, VarIntError,
    VarRead,
};

verus! {

/// The maximum number of data values.
pub const MAX_DATA_VALUES: usize = 255;

/// The maximum data ID.
pub const MAX_DATA_ID: u32 = 254;

/// Global context types satisfying use of entity data.
pub trait EntityDataCx<'a>: ProvideLocalCxTy + GlobalContext {}

impl<'a, T> EntityDataCx<'a> for T where T: ProvideLocalCxTy + GlobalContext {}

/// Unique ID of a codec registered in a [`CodecRegistry`].
#[derive(Debug, Clone, Copy, PartialEq, Eq, Hash)]
pub struct CodecId(pub u32);

impl Encode for CodecId {
    /// Appends this id to the buffer as a variable-length integer.
    fn encode(&self, buf: &mut Vec<u8>) -> (r: Result<(), PacketError>)
        ensures
            r == Ok::<(), PacketError>(()),
            final(buf)@ == old(buf)@ + var_bytes(self.0 as nat),
    {
        write_var(buf, self.0 as u64);
        Ok(())
    }
}

impl Decode for CodecId {
    open spec fn decodable(buf: Seq<u8>) -> bool {
        !(var_read(buf, 32) is RunsOut)
    }

    open spec fn decoded(buf: Seq<u8>) -> Result<(CodecId, usize), PacketError> {
        match var_read(buf, 32) {
            VarRead::Value { value, len } => Ok::<(CodecId, usize), PacketError>(
                    (CodecId(value as u32), len as usize),
                ),
            _ => Err::<(CodecId, usize), PacketError>(PacketError::VarInt(VarIntError::TooLarge)),
        }
    }

    /// Reads an id, a variable-length integer, from the front of the buffer
    /// and returns it with the number of bytes it took.
    fn decode(buf: &[u8]) -> (r: Result<(CodecId, usize), PacketError>)
        ensures
            match var_read(buf@, 32) {
                VarRead::Value { value, len } => r == Ok::<(CodecId, usize), PacketError>(
                    (CodecId(value as u32), len as usize),
                ),
                VarRead::TooLarge => r == Err::<(CodecId, usize), PacketError>(
                    PacketError::VarInt(VarIntError::TooLarge),
                ),
                VarRead::RunsOut => false,
            },
            var_read(buf@, 32) matches VarRead::Value { value, len } ==> value < 0x1_0000_0000
                && 1 <= len <= 5 && len <= buf@.len(),
    {
        match read_var(buf, 32) {
            Ok((v, n)) => Ok((CodecId(v as u32), n)),
            Err(e) => Err(PacketError::VarInt(e)),
        }
    }
}

/// A registry of codecs, each found again by the id it was registered under.
pub struct CodecRegistry<C> {
    codecs: Vec<C>,
}

impl<C> View for CodecRegistry<C> {
    type V = Seq<C>;

    closed spec fn view(&self) -> Seq<C> {
        self.codecs@
    }
}

impl<C: Copy> CodecRegistry<C> {
    /// Creates a new empty registry.
    pub fn new() -> (r: Self)
        ensures
            r@ == Seq::<C>::empty(),
    {
        CodecRegistry { codecs: Vec::new() }
    }

    /// Registers a new codec and returns its ID: the number of codecs
    /// registered before it.
    pub fn register(&mut self, codec: C) -> (r: CodecId)
        requires
            old(self)@.len() < u32::MAX,
        ensures
            final(self)@ == old(self)@.push(codec),
            r == CodecId(old(self)@.len() as u32),
    {
        self.codecs.push(codec);
        CodecId(self.codecs.len() as u32 - 1)
    }

    /// Gets a codec by its ID.
    pub fn get_raw(&self, id: CodecId) -> (r: Option<C>)
        ensures
            r == (if (id.0 as int) < self@.len() {
                Some(self@[id.0 as int])
            } else {
                None
            }),
    {
        if (id.0 as usize) < self.codecs.len() {
            Some(self.codecs[id.0 as usize])
        } else {
            None
        }
    }
}

/// A protected `u32` type representing ID of a [`TrackedData`], with the
/// entity type it was registered for.
#[derive(Debug)]
pub struct DataId {
    id: u32,
    entity_ty: u64,
}

impl DataId {
    /// The id.
    pub closed spec fn id_spec(&self) -> u32 {
        self.id
    }

    /// The entity type the id belongs to.
    pub closed spec fn entity_ty_spec(&self) -> u64 {
        self.entity_ty
    }
}

/// Registry of the data ids handed out to each entity type: the last id
/// given to each type.
pub struct DataIdRegistry {
    last: AHashMap<u64, u64>,
}

impl View for DataIdRegistry {
    type V = Map<u64, u64>;

    closed spec fn view(&self) -> Map<u64, u64> {
        u64_map_contents(self.last)
    }
}

/// The id that a data registration gives for an entity type whose last id
/// is `last`: the first id is 0, then each registration takes the next.
pub open spec fn next_data_id(last: Option<u64>) -> u32 {
    match last {
        Some(i) => (i + 1) as u32,
        None => 0,
    }
}

/// The last id that the registry view `m` records for `t`, if any.
pub open spec fn last_id(m: Map<u64, u64>, t: u64) -> Option<u64> {
    if m.contains_key(t) {
        Some(m[t])
    } else {
        None
    }
}

/// How many times `t` stands in `tys`.
pub open spec fn times(tys: Seq<u64>, t: u64) -> nat
    decreases tys.len(),
{
    if tys.len() == 0 {
        0
    } else {
        times(tys.drop_last(), t) + if tys.last() == t {
            1nat
        } else {
            0nat
        }
    }
}

/// The view of a new registry after registering data for the entity types
/// `tys` in turn, as [`DataIdRegistry::register_data`] states each step.
pub open spec fn registered(tys: Seq<u64>) -> Map<u64, u64>
    decreases tys.len(),
{
    if tys.len() == 0 {
        Map::empty()
    } else {
        let before = registered(tys.drop_last());
        let t = tys.last();
        before.insert(t, next_data_id(last_id(before, t)) as u64)
    }
}

/// Registering data for entity types in turn, from a new registry, hands
/// each entity type the ids 0, 1, 2, ... in the order of its own
/// registrations, whatever other types register between them: after the
/// registrations, a type registered `k > 0` times has last id `k - 1`, so
/// its next registration takes id `k`.
pub proof fn lemma_data_ids_count(tys: Seq<u64>)
    requires
        forall|t: u64| #[trigger] times(tys, t) <= MAX_DATA_ID + 1,
    ensures
        forall|t: u64| #[trigger] registered(tys).contains_key(t) <==> times(tys, t) > 0,
        forall|t: u64| #[trigger] registered(tys).contains_key(t) ==> registered(tys)[t] == times(tys, t) - 1,
        forall|t: u64| #[trigger] next_data_id(last_id(registered(tys), t)) == times(tys, t),
    decreases tys.len(),
{
    if tys.len() > 0 {
        let u = tys.drop_last();
        assert forall|t: u64| #[trigger] times(u, t) <= MAX_DATA_ID + 1 by {
            assert(times(tys, t) >= times(u, t));
        }
        lemma_data_ids_count(u);
        assert forall|t: u64| #[trigger] registered(tys).contains_key(t) <==> times(tys, t) > 0 by {
            assert(times(u, t) >= 0);
        }
        assert forall|t: u64| #[trigger] registered(tys).contains_key(t) implies registered(tys)[t]
            == times(tys, t) - 1 by {
            assert(times(u, t) >= 0);
            if t == tys.last() {
                assert(times(tys, t) <= MAX_DATA_ID + 1);
            }
        }
    }
}

impl DataIdRegistry {
    /// Creates a registry that has handed out no ids.
    pub fn new() -> (r: Self)
        ensures
            r@ == Map::<u64, u64>::empty(),
    {
        DataIdRegistry { last: u64_map_new() }
    }

    /// Every id handed out is at most [`MAX_DATA_ID`].
    pub closed spec fn wf(&self) -> bool {
        forall|t: u64| #[trigger]
            u64_map_contents(self.last).contains_key(t) ==> u64_map_contents(self.last)[t]
                <= MAX_DATA_ID
    }

    /// Registers a tracked data of the given entity type by returning its
    /// unique ID.
    ///
    /// The count of data IDs of one entity type may not exceed [`MAX_DATA_ID`].
    pub fn register_data(&mut self, entity_ty: u64) -> (r: DataId)
        requires
            old(self).wf(),
            old(self)@.contains_key(entity_ty) ==> old(self)@[entity_ty] < MAX_DATA_ID,
        ensures
            final(self).wf(),
            r.id_spec() == next_data_id(last_id(old(self)@, entity_ty)),
            r.entity_ty_spec() == entity_ty,
            final(self)@ == old(self)@.insert(entity_ty, r.id_spec() as u64),
    {
        let id: u32 = match u64_map_get(&self.last, entity_ty) {
            Some(i) => (i + 1) as u32,
            None => 0,
        };
        u64_map_insert(&mut self.last, entity_ty, id as u64);
        DataId { id, entity_ty }
    }

    /// The number of data values an entity type has registered: one more
    /// than its last id, or none.
    pub fn data_count(&self, entity_ty: u64) -> (r: usize)
        requires
            self.wf(),
        ensures
            r == (if self@.contains_key(entity_ty) {
                self@[entity_ty] + 1
            } else {
                0
            }),
    {
        match u64_map_get(&self.last, entity_ty) {
            Some(i) => (i + 1) as usize,
            None => 0,
        }
    }
}

/// Type-erased raw representation of a [`TrackedData`].
#[derive(Debug, Clone, Copy, PartialEq, Eq, Hash)]
pub struct RawTrackedData {
    id: u32,
    entity_ty: u64,
    codec_id: CodecId,
}

impl RawTrackedData {
    /// The id.
    pub closed spec fn id_spec(&self) -> u32 {
        self.id
    }

    /// The entity type.
    pub closed spec fn entity_ty_spec(&self) -> u64 {
        self.entity_ty
    }

    /// The codec id.
    pub closed spec fn codec_id_spec(&self) -> CodecId {
        self.codec_id
    }

    /// Gets the id of this tracked data.
    pub fn id(&self) -> (r: u32)
        ensures
            r == self.id_spec(),
    {
        self.id
    }
}

/// Entity data accessor that is held by entities for getting and setting data values.
#[derive(Debug, Clone, Copy, PartialEq, Eq, Hash)]
pub struct TrackedData {
    raw: RawTrackedData,
}

impl TrackedData {
    /// The raw form.
    pub closed spec fn raw_spec(&self) -> RawTrackedData {
        self.raw
    }

    /// Creates a new data accessor with the given id and codec.
    pub fn with_codec(id: DataId, codec_id: CodecId) -> (r: Self)
        ensures
            r.raw_spec().id_spec() == id.id_spec(),
            r.raw_spec().entity_ty_spec() == id.entity_ty_spec(),
            r.raw_spec().codec_id_spec() == codec_id,
    {
        TrackedData { raw: RawTrackedData { id: id.id, entity_ty: id.entity_ty, codec_id } }
    }

    /// Gets the id of this tracked data.
    pub fn id(&self) -> (r: u32)
        ensures
            r == self.raw_spec().id_spec(),
    {
        self.raw.id
    }

    /// Gets the raw form of this tracked data.
    pub fn raw(&self) -> (r: RawTrackedData)
        ensures
            r == self.raw_spec(),
    {
        self.raw
    }
}

/// Entry of a [`DataTracker`], containing a [`TrackedData`] and its corresponding value.
#[derive(Debug, Clone, Copy, PartialEq, Eq)]
pub struct DataTrackerEntry {
    /// Whether the value must be sent.
    pub dirty: bool,
    /// Whether the value may have been changed through [`Self::get_mut`].
    pub may_changed: bool,
    /// The tracked data.
    pub data: RawTrackedData,
    /// The value.
    pub value: u64,
}

impl DataTrackerEntry {
    /// Creates a new entry, neither dirty nor changed.
    pub fn new(data: TrackedData, value: u64) -> (r: Self)
        ensures
            r == (DataTrackerEntry {
                dirty: false,
                may_changed: false,
                data: data.raw_spec(),
                value,
            }),
    {
        DataTrackerEntry { dirty: false, may_changed: false, data: data.raw, value }
    }

    /// Gets the inner value.
    pub fn get(&self) -> (r: u64)
        ensures
            r == self.value,
    {
        self.value
    }

    /// Gets the mutable inner value, and records that it may have changed.
    pub fn get_mut(&mut self) -> (r: &mut u64)
        ensures
            *r == old(self).value,
            *final(self) == (DataTrackerEntry {
                may_changed: true,
                value: *final(r),
                ..*old(self)
            }),
    {
        self.may_changed = true;
        &mut self.value
    }

    /// Gets the tracked data of this entry.
    pub fn data(&self) -> (r: RawTrackedData)
        ensures
            r == self.data,
    {
        self.data
    }

    /// Checks whether this value is dirty.
    pub fn is_dirty(&self) -> (r: bool)
        ensures
            r == self.dirty,
    {
        self.dirty
    }

    /// Sets the dirty flag.
    pub fn set_dirty(&mut self, dirty: bool)
        ensures
            *final(self) == (DataTrackerEntry { dirty, ..*old(self) }),
    {
        self.dirty = dirty;
    }

    /// Checks whether this entry's value has not been taken for mutation.
    pub fn is_unchanged(&self) -> (r: bool)
        ensures
            r == !self.may_changed,
    {
        !self.may_changed
    }

    /// Returns a serialized form of this entry for encoding.
    pub fn as_serialized(&self) -> (r: SerializedEntry)
        ensures
            r == serialized_of(*self),
    {
        SerializedEntry { id: self.data.id, codec_id: self.data.codec_id, value: self.value }
    }
}

/// Serialized form of [`DataTrackerEntry`] for encoding and decoding purposes.
#[derive(Debug, Clone, Copy, PartialEq, Eq)]
pub struct SerializedEntry {
    /// The data id.
    pub id: u32,
    /// The codec of the value.
    pub codec_id: CodecId,
    /// The value.
    pub value: u64,
}

/// The serialized form of an entry.
pub open spec fn serialized_of(e: DataTrackerEntry) -> SerializedEntry {
    SerializedEntry { id: e.data.id_spec(), codec_id: e.data.codec_id_spec(), value: e.value }
}

/// The serialized forms of the entries whose values may have changed.
pub open spec fn changed_of(s: Seq<DataTrackerEntry>) -> Seq<SerializedEntry>
    decreases s.len(),
{
    if s.len() == 0 {
        Seq::empty()
    } else {
        let rest = changed_of(s.drop_last());
        if s.last().may_changed {
            rest.push(serialized_of(s.last()))
        } else {
            rest
        }
    }
}

/// The serialized forms of the dirty entries.
pub open spec fn dirty_of(s: Seq<DataTrackerEntry>) -> Seq<SerializedEntry>
    decreases s.len(),
{
    if s.len() == 0 {
        Seq::empty()
    } else {
        let rest = dirty_of(s.drop_last());
        if s.last().dirty {
            rest.push(serialized_of(s.last()))
        } else {
            rest
        }
    }
}

/// The entries after taking the given serialized entries in order: each
/// serialized entry whose id names an entry gives that entry its value.
pub open spec fn apply_updates(s: Seq<DataTrackerEntry>, updates: Seq<SerializedEntry>) -> Seq<
    DataTrackerEntry,
>
    decreases updates.len(),
{
    if updates.len() == 0 {
        s
    } else {
        let before = apply_updates(s, updates.drop_last());
        let u = updates.last();
        if (u.id as int) < before.len() {
            before.update(u.id as int, DataTrackerEntry { value: u.value, ..before[u.id as int] })
        } else {
            before
        }
    }
}

/// The tracked data of the entries that the given serialized entries
/// update, in order.
pub open spec fn updated_data(s: Seq<DataTrackerEntry>, updates: Seq<SerializedEntry>) -> Seq<
    RawTrackedData,
>
    decreases updates.len(),
{
    if updates.len() == 0 {
        Seq::empty()
    } else {
        let rest = updated_data(s, updates.drop_last());
        let u = updates.last();
        if (u.id as int) < s.len() {
            rest.push(s[u.id as int].data)
        } else {
            rest
        }
    }
}

proof fn lemma_apply_updates_shape(s: Seq<DataTrackerEntry>, updates: Seq<SerializedEntry>)
    ensures
        apply_updates(s, updates).len() == s.len(),
        forall|i: int|
            0 <= i < s.len() ==> (#[trigger] apply_updates(s, updates)[i]).data == s[i].data
                && apply_updates(s, updates)[i].dirty == s[i].dirty
                && apply_updates(s, updates)[i].may_changed == s[i].may_changed,
    decreases updates.len(),
{
    if updates.len() > 0 {
        lemma_apply_updates_shape(s, updates.drop_last());
    }
}

/// Whether each entry stands at the position its data id names.
pub open spec fn ids_in_place(s: Seq<DataTrackerEntry>) -> bool {
    forall|i: int| 0 <= i < s.len() ==> (#[trigger] s[i]).data.id_spec() == i
}

/// The dirty entries of entries that stand at their ids come out in
/// increasing id order, each id below the number of entries.
pub proof fn lemma_dirty_in_id_order(s: Seq<DataTrackerEntry>)
    requires
        ids_in_place(s),
    ensures
        forall|i: int, j: int|
            0 <= i < j < dirty_of(s).len() ==> (#[trigger] dirty_of(s)[i]).id < (
            #[trigger] dirty_of(s)[j]).id,
        forall|i: int| 0 <= i < dirty_of(s).len() ==> (#[trigger] dirty_of(s)[i]).id < s.len(),
    decreases s.len(),
{
    if s.len() > 0 {
        let t = s.drop_last();
        assert(ids_in_place(t)) by {
            assert forall|i: int| 0 <= i < t.len() implies (#[trigger] t[i]).data.id_spec() == i by {
                assert(t[i] == s[i]);
            }
        }
        lemma_dirty_in_id_order(t);
        let d = dirty_of(t);
        let e = serialized_of(s.last());
        assert(s.last().data.id_spec() == s.len() - 1);
        if s.last().dirty {
            assert(dirty_of(s) == d.push(e));
            assert forall|i: int| 0 <= i < dirty_of(s).len() implies (#[trigger] dirty_of(s)[i]).id
                < s.len() by {
                if i < d.len() {
                    assert(dirty_of(s)[i] == d[i]);
                }
            }
            assert forall|i: int, j: int|
                0 <= i < j < dirty_of(s).len() implies (#[trigger] dirty_of(s)[i]).id < (
                #[trigger] dirty_of(s)[j]).id by {
                assert(dirty_of(s)[i] == d[i]);
                if j < d.len() {
                    assert(dirty_of(s)[j] == d[j]);
                }
            }
        } else {
            assert(dirty_of(s) == d);
        }
    }
}

/// Holder of an entity's tracked values.
pub struct DataTracker {
    entries: Vec<DataTrackerEntry>,
    entity_ty: u64,
    dirty: bool,
}

impl View for DataTracker {
    type V = Seq<DataTrackerEntry>;

    closed spec fn view(&self) -> Seq<DataTrackerEntry> {
        self.entries@
    }
}

impl DataTracker {
    /// The entity type whose data this tracker holds.
    pub closed spec fn entity_ty_spec(&self) -> u64 {
        self.entity_ty
    }

    /// Whether some value was taken for mutation since the tracker was built.
    pub closed spec fn is_dirty_spec(&self) -> bool {
        self.dirty
    }

    /// Each entry stands at the position its data id names.
    pub open spec fn wf(&self) -> bool {
        ids_in_place(self@)
    }

    /// Gets the value of the given key.
    ///
    /// The key must belong to the entity type of this tracker.
    pub fn get(&self, key: &TrackedData) -> (r: Option<u64>)
        requires
            key.raw_spec().entity_ty_spec() == self.entity_ty_spec(),
        ensures
            r == (if (key.raw_spec().id_spec() as int) < self@.len() {
                Some(self@[key.raw_spec().id_spec() as int].value)
            } else {
                None
            }),
    {
        let id = key.raw.id as usize;
        if id < self.entries.len() {
            Some(self.entries[id].value)
        } else {
            None
        }
    }

    /// Gets a mutable reference to the value of the given key, marking the
    /// entry dirty and changed, and the tracker dirty.
    ///
    /// The key must belong to the entity type of this tracker.
    pub fn get_mut(&mut self, key: &TrackedData) -> (r: Option<&mut u64>)
        requires
            key.raw_spec().entity_ty_spec() == old(self).entity_ty_spec(),
        ensures
            final(self).entity_ty_spec() == old(self).entity_ty_spec(),
            old(self).wf() ==> final(self).wf(),
            match r {
                Some(v) => {
                    let i = key.raw_spec().id_spec() as int;
                    &&& i < old(self)@.len()
                    &&& *v == old(self)@[i].value
                    &&& final(self)@ == old(self)@.update(
                        i,
                        DataTrackerEntry {
                            dirty: true,
                            may_changed: true,
                            value: *final(v),
                            ..old(self)@[i]
                        },
                    )
                    &&& final(self).is_dirty_spec()
                },
                None => {
                    &&& (key.raw_spec().id_spec() as int) >= old(self)@.len()
                    &&& *final(self) == *old(self)
                },
            },
    {
        let id = key.raw.id as usize;
        if id < self.entries.len() {
            self.dirty = true;
            let e = &mut self.entries[id];
            e.dirty = true;
            e.may_changed = true;
            Some(&mut e.value)
        } else {
            None
        }
    }

    /// Updates this tracker by the given entries which are updated entries
    /// of this tracker, and returns the tracked data of each entry updated,
    /// in order, for the entity to update itself.
    ///
    /// The codec of each serialized entry must match with its entry.
    pub fn update_entries(&mut self, entries: Vec<SerializedEntry>) -> (r: Vec<RawTrackedData>)
        requires
            forall|j: int|
                0 <= j < entries@.len() && (entries@[j].id as int) < old(self)@.len()
                    ==> old(self)@[entries@[j].id as int].data.codec_id_spec()
                    == #[trigger] entries@[j].codec_id,
        ensures
            final(self)@ == apply_updates(old(self)@, entries@),
            old(self).wf() ==> final(self).wf(),
            r@ == updated_data(old(self)@, entries@),
            final(self).entity_ty_spec() == old(self).entity_ty_spec(),
            final(self).is_dirty_spec() == old(self).is_dirty_spec(),
    {
        let mut out: Vec<RawTrackedData> = Vec::new();
        let mut k: usize = 0;
        let ghost start = self@;
        while k < entries.len()
            invariant
                k <= entries.len(),
                self@ == apply_updates(start, entries@.take(k as int)),
                out@ == updated_data(start, entries@.take(k as int)),
                self.entity_ty == old(self).entity_ty,
                self.dirty == old(self).dirty,
                start == old(self)@,
                forall|j: int|
                    0 <= j < entries@.len() && (entries@[j].id as int) < start.len()
                        ==> start[entries@[j].id as int].data.codec_id_spec()
                        == #[trigger] entries@[j].codec_id,
            decreases entries.len() - k,
        {
            let serialized = entries[k];
            proof {
                assert(entries@.take(k + 1 as int).drop_last() =~= entries@.take(k as int));
                assert(entries@.take(k + 1 as int).last() == serialized);
                lemma_apply_updates_shape(start, entries@.take(k as int));
            }
            let id = serialized.id as usize;
            if id < self.entries.len() {
                let data = self.entries[id].data;
                let e = &mut self.entries[id];
                e.value = serialized.value;
                out.push(data);
            }
            k = k + 1;
        }
        proof {
            assert(entries@.take(entries.len() as int) =~= entries@);
            lemma_apply_updates_shape(start, entries@);
            if ids_in_place(start) {
                assert forall|i: int| 0 <= i < self@.len() implies (#[trigger] self@[i]).data.id_spec()
                    == i by {
                    assert(apply_updates(start, entries@)[i].data == start[i].data);
                }
            }
        }
        out
    }

    /// Gets the serialized forms of all changed entries of this tracker.
    pub fn changed_entries(&self) -> (r: Vec<SerializedEntry>)
        ensures
            r@ == changed_of(self@),
    {
        let mut out: Vec<SerializedEntry> = Vec::new();
        let mut i: usize = 0;
        while i < self.entries.len()
            invariant
                i <= self.entries.len(),
                out@ == changed_of(self@.take(i as int)),
            decreases self.entries.len() - i,
        {
            proof {
                assert(self@.take(i + 1 as int).drop_last() =~= self@.take(i as int));
            }
            let e = self.entries[i];
            if !e.is_unchanged() {
                out.push(e.as_serialized());
            }
            i = i + 1;
        }
        proof {
            assert(self@.take(self@.len() as int) =~= self@);
        }
        out
    }

    /// Gets the serialized forms of all dirty entries of this tracker,
    /// leaving the dirty flags as they are.
    pub fn dirty_entries(&self) -> (r: Vec<SerializedEntry>)
        ensures
            r@ == dirty_of(self@),
    {
        let mut out: Vec<SerializedEntry> = Vec::new();
        let mut i: usize = 0;
        while i < self.entries.len()
            invariant
                i <= self.entries.len(),
                out@ == dirty_of(self@.take(i as int)),
            decreases self.entries.len() - i,
        {
            proof {
                assert(self@.take(i + 1 as int).drop_last() =~= self@.take(i as int));
            }
            let e = self.entries[i];
            if e.is_dirty() {
                out.push(e.as_serialized());
            }
            i = i + 1;
        }
        proof {
            assert(self@.take(self@.len() as int) =~= self@);
        }
        out
    }

    /// Gets the serialized forms of all dirty entries of this tracker and
    /// clears their dirty flags.
    pub fn self_cleaning_dirty_entries(&mut self) -> (r: Vec<SerializedEntry>)
        ensures
            r@ == dirty_of(old(self)@),
            final(self)@.len() == old(self)@.len(),
            forall|i: int|
                0 <= i < old(self)@.len() ==> #[trigger] final(self)@[i] == (DataTrackerEntry {
                    dirty: false,
                    ..old(self)@[i]
                }),
            final(self).entity_ty_spec() == old(self).entity_ty_spec(),
            final(self).is_dirty_spec() == old(self).is_dirty_spec(),
            old(self).wf() ==> final(self).wf(),
    {
        let mut out: Vec<SerializedEntry> = Vec::new();
        let mut i: usize = 0;
        let ghost start = self@;
        while i < self.entries.len()
            invariant
                i <= self.entries.len(),
                self@.len() == start.len(),
                out@ == dirty_of(start.take(i as int)),
                forall|j: int|
                    0 <= j < i ==> #[trigger] self@[j] == (DataTrackerEntry {
                        dirty: false,
                        ..start[j]
                    }),
                forall|j: int| i <= j < start.len() ==> #[trigger] self@[j] == start[j],
                self.entity_ty == old(self).entity_ty,
                self.dirty == old(self).dirty,
                start == old(self)@,
            decreases self.entries.len() - i,
        {
            proof {
                assert(start.take(i + 1 as int).drop_last() =~= start.take(i as int));
            }
            let e = self.entries[i];
            if e.is_dirty() {
                let m = &mut self.entries[i];
                m.set_dirty(false);
                out.push(e.as_serialized());
            }
            i = i + 1;
        }
        proof {
            assert(start.take(start.len() as int) =~= start);
            if ids_in_place(start) {
                assert forall|i: int| 0 <= i < self@.len() implies (#[trigger] self@[i]).data.id_spec()
                    == i by {
                    assert(self@[i].data == start[i].data);
                }
            }
        }
        out
    }
}

/// The number of slots that hold an entry.
pub open spec fn count_defined(s: Seq<Option<DataTrackerEntry>>) -> nat
    decreases s.len(),
{
    if s.len() == 0 {
        0
    } else {
        count_defined(s.drop_last()) + if s.last() is Some {
            1nat
        } else {
            0nat
        }
    }
}

proof fn lemma_count_defined_fill(s: Seq<Option<DataTrackerEntry>>, i: int, e: DataTrackerEntry)
    requires
        0 <= i < s.len(),
        s[i] is None,
    ensures
        count_defined(s.update(i, Some(e))) == count_defined(s) + 1,
    decreases s.len(),
{
    let t = s.update(i, Some(e));
    if i == s.len() - 1 {
        assert(t.drop_last() =~= s.drop_last());
    } else {
        assert(t.drop_last() =~= s.drop_last().update(i, Some(e)));
        lemma_count_defined_fill(s.drop_last(), i, e);
    }
}

proof fn lemma_count_defined_bound(s: Seq<Option<DataTrackerEntry>>)
    ensures
        count_defined(s) <= s.len(),
    decreases s.len(),
{
    if s.len() > 0 {
        lemma_count_defined_bound(s.drop_last());
    }
}

proof fn lemma_count_defined_none(n: nat)
    ensures
        count_defined(Seq::new(n, |i: int| None::<DataTrackerEntry>)) == 0,
    decreases n,
{
    if n > 0 {
        assert(Seq::new(n, |i: int| None::<DataTrackerEntry>).drop_last() =~= Seq::new(
            (n - 1) as nat,
            |i: int| None::<DataTrackerEntry>,
        ));
        lemma_count_defined_none((n - 1) as nat);
    }
}

/// Builder of a [`DataTracker`]: one slot per data id of the entity type.
pub struct DataTrackerBuilder {
    entries: Vec<Option<DataTrackerEntry>>,
    entity_ty: u64,
    len: usize,
}

impl View for DataTrackerBuilder {
    type V = Seq<Option<DataTrackerEntry>>;

    closed spec fn view(&self) -> Seq<Option<DataTrackerEntry>> {
        self.entries@
    }
}

impl DataTrackerBuilder {
    /// The entity type whose data the builder takes.
    pub closed spec fn entity_ty_spec(&self) -> u64 {
        self.entity_ty
    }

    /// The length counts the defined slots, and each defined slot holds the
    /// entry of the data id that names it.
    pub closed spec fn wf(&self) -> bool {
        &&& self.len == count_defined(self.entries@)
        &&& forall|i: int|
            0 <= i < self.entries@.len() && (#[trigger] self.entries@[i]) is Some
                ==> self.entries@[i]->0.data.id_spec() == i
    }

    /// Creates a new data tracker builder for the given entity type, with a
    /// slot for each data id the type has registered.
    pub fn new(registry: &DataIdRegistry, entity_ty: u64) -> (r: Self)
        requires
            registry.wf(),
        ensures
            r.wf(),
            r.entity_ty_spec() == entity_ty,
            r@ == Seq::new(
                (if registry@.contains_key(entity_ty) {
                    registry@[entity_ty] + 1
                } else {
                    0
                }) as nat,
                |i: int| None::<DataTrackerEntry>,
            ),
    {
        let n = registry.data_count(entity_ty);
        let mut entries: Vec<Option<DataTrackerEntry>> = Vec::new();
        let mut i: usize = 0;
        while i < n
            invariant
                i <= n,
                entries@ == Seq::new(i as nat, |j: int| None::<DataTrackerEntry>),
            decreases n - i,
        {
            entries.push(None);
            i = i + 1;
            assert(entries@ =~= Seq::new(i as nat, |j: int| None::<DataTrackerEntry>));
        }
        proof {
            lemma_count_defined_none(n as nat);
        }
        DataTrackerBuilder { entries, entity_ty, len: 0 }
    }

    /// Inserts a value into this tracker if its slot is empty, or returns
    /// the given value.
    ///
    /// The tracked data must belong to the entity type of this builder.
    pub fn insert(&mut self, data: TrackedData, value: u64) -> (r: Option<u64>)
        requires
            old(self).wf(),
            data.raw_spec().entity_ty_spec() == old(self).entity_ty_spec(),
        ensures
            final(self).wf(),
            final(self).entity_ty_spec() == old(self).entity_ty_spec(),
            ({
                let i = data.raw_spec().id_spec() as int;
                if i < old(self)@.len() && old(self)@[i] is None {
                    &&& r is None
                    &&& final(self)@ == old(self)@.update(
                        i,
                        Some(
                            DataTrackerEntry {
                                dirty: false,
                                may_changed: false,
                                data: data.raw_spec(),
                                value,
                            },
                        ),
                    )
                } else {
                    &&& r == Some(value)
                    &&& *final(self) == *old(self)
                }
            }),
    {
        let id = data.raw.id as usize;
        if id < self.entries.len() && self.entries[id].is_none() {
            let entry = DataTrackerEntry::new(data, value);
            proof {
                lemma_count_defined_fill(self.entries@, id as int, entry);
                lemma_count_defined_bound(self.entries@.update(id as int, Some(entry)));
            }
            self.entries.set(id, Some(entry));
            self.len = self.len + 1;
            None
        } else {
            Some(value)
        }
    }

    /// Returns the number of defined values.
    pub fn len(&self) -> (r: usize)
        requires
            self.wf(),
        ensures
            r == count_defined(self@),
    {
        self.len
    }

    /// Returns whether no value is defined.
    pub fn is_empty(&self) -> (r: bool)
        requires
            self.wf(),
        ensures
            r == (count_defined(self@) == 0),
    {
        self.len == 0
    }

    /// Builds a data tracker, neither it nor its entries dirty.
    ///
    /// Every slot must be defined.
    pub fn build(self) -> (r: DataTracker)
        requires
            self.wf(),
            forall|i: int| 0 <= i < self@.len() ==> #[trigger] self@[i] is Some,
        ensures
            r.wf(),
            r@.len() == self@.len(),
            forall|i: int| 0 <= i < self@.len() ==> #[trigger] r@[i] == self@[i].unwrap(),
            r.entity_ty_spec() == self.entity_ty_spec(),
            !r.is_dirty_spec(),
    {
        let mut entries: Vec<DataTrackerEntry> = Vec::new();
        let mut i: usize = 0;
        while i < self.entries.len()
            invariant
                i <= self.entries.len(),
                entries@.len() == i,
                forall|j: int| 0 <= j < i ==> #[trigger] entries@[j] == self@[j].unwrap(),
                forall|j: int| 0 <= j < self@.len() ==> #[trigger] self@[j] is Some,
            decreases self.entries.len() - i,
        {
            match self.entries[i] {
                Some(e) => entries.push(e),
                None => {},
            }
            i = i + 1;
        }
        DataTracker { entries, entity_ty: self.entity_ty, dirty: false }
    }
}

/// Errors of encoding and decoding serialized entries.
#[derive(Debug, Clone, Copy, PartialEq, Eq)]
pub enum DataError {
    /// The data id exceeds [`MAX_DATA_ID`].
    InvalidDataId(u32),
    /// No codec is registered under the id.
    CodecNotFound(CodecId),
    /// The codec id is malformed.
    Packet(PacketError),
}

impl SerializedEntry {
    /// Appends the header of this entry to the buffer: the data id as a
    /// byte, then the codec id. The value follows, written by its codec.
    ///
    /// Fails, writing nothing, when the data id exceeds [`MAX_DATA_ID`].
    pub fn encode_header(&self, buf: &mut Vec<u8>) -> (r: Result<(), DataError>)
        ensures
            self.id > MAX_DATA_ID ==> r == Err::<(), DataError>(DataError::InvalidDataId(self.id))
                && final(buf)@ == old(buf)@,
            self.id <= MAX_DATA_ID ==> r == Ok::<(), DataError>(()) && final(buf)@ == old(buf)@
                + seq![self.id as u8] + var_bytes(self.codec_id.0 as nat),
    {
        if self.id > MAX_DATA_ID {
            return Err(DataError::InvalidDataId(self.id));
        }
        let ghost start = buf@;
        buf.push(self.id as u8);
        let ghost mid = buf@;
        let _ = self.codec_id.encode(buf);
        assert(buf@ == start + seq![self.id as u8] + var_bytes(self.codec_id.0 as nat));
        Ok(())
    }

    /// Reads the header of an entry from the front of the buffer and
    /// returns the data id, the codec id, the codec registered under it and
    /// the number of bytes taken. The value follows, read by the codec.
    pub fn decode_header<C: Copy>(buf: &[u8], registry: &CodecRegistry<C>) -> (r: Result<
        (u32, CodecId, C, usize),
        DataError,
    >)
        ensures
            buf@.len() == 0 ==> r == Err::<(u32, CodecId, C, usize), DataError>(
                DataError::Packet(PacketError::InvalidData),
            ),
            buf@.len() > 0 && buf@[0] > MAX_DATA_ID ==> r == Err::<(u32, CodecId, C, usize), DataError>(
                DataError::InvalidDataId(buf@[0] as u32),
            ),
            buf@.len() > 0 && buf@[0] <= MAX_DATA_ID ==> match var_read(buf@.subrange(1, buf@.len() as int), 32) {
                VarRead::Value { value, len } => if value < registry@.len() {
                    r == Ok::<(u32, CodecId, C, usize), DataError>(
                        (buf@[0] as u32, CodecId(value as u32), registry@[value as int], (len
                            + 1) as usize),
                    )
                } else {
                    r == Err::<(u32, CodecId, C, usize), DataError>(
                        DataError::CodecNotFound(CodecId(value as u32)),
                    )
                },
                VarRead::TooLarge => r == Err::<(u32, CodecId, C, usize), DataError>(
                    DataError::Packet(PacketError::VarInt(VarIntError::TooLarge)),
                ),
                VarRead::RunsOut => r == Err::<(u32, CodecId, C, usize), DataError>(
                    DataError::Packet(PacketError::InvalidData),
                ),
            },
    {
        if buf.len() == 0 {
            return Err(DataError::Packet(PacketError::InvalidData));
        }
        let id = buf[0] as u32;
        if id > MAX_DATA_ID {
            return Err(DataError::InvalidDataId(id));
        }
        let rest = &buf[1..buf.len()];
        if var_runs_out(rest, 32) {
            return Err(DataError::Packet(PacketError::InvalidData));
        }
        match CodecId::decode(rest) {
            Ok((codec_id, n)) => match registry.get_raw(codec_id) {
                Some(codec) => Ok((id, codec_id, codec, n + 1)),
                None => Err(DataError::CodecNotFound(codec_id)),
            },
            Err(e) => Err(DataError::Packet(e)),
        }
    }
}

/// Decoding the header that encoding wrote for an entry reads back its data
/// id and its codec id, whatever follows the header.
pub proof fn lemma_header_roundtrip(e: SerializedEntry, rest: Seq<u8>)
    requires
        e.id <= MAX_DATA_ID,
    ensures
        ({
            let b = seq![e.id as u8] + var_bytes(e.codec_id.0 as nat) + rest;
            &&& b.len() >= 1
            &&& b[0] <= MAX_DATA_ID
            &&& b[0] as u32 == e.id
            &&& var_read(b.subrange(1, b.len() as int), 32) == (VarRead::Value {
                value: e.codec_id.0 as nat,
                len: var_bytes(e.codec_id.0 as nat).len(),
            })
        }),
{
    let v = var_bytes(e.codec_id.0 as nat);
    let b = seq![e.id as u8] + v + rest;
    assert(b.subrange(1, b.len() as int) =~= v + rest);
    assert(width_modulus(32) == 0x1_0000_0000);
    lemma_var_roundtrip(e.codec_id.0 as nat, 32, rest);
}

} // verus!
