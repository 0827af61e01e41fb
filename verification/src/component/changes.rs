//! Changes of components: which components a patched map sets and which it
//! removes.

use ahash::{AHashMap, AHashSet};
use vstd::prelude::*;
use vstd::string::StringExecFns;

use crate::component::packet::count_serializable;
use crate::component::{record_flag, serializable_types, ComponentMap, ErasedComponentType};
use crate::index_map::{
    opt_map_contents, opt_map_get, opt_map_insert, opt_map_keys, opt_map_len, opt_map_new,
    opt_map_remove, u64_set_contains, u64_set_contents, u64_set_insert, u64_set_new,
};

verus! {

/// Changes of components: a component type maps to `Some` value to set, or
/// to `None` to remove the component.
pub struct ComponentChanges {
    pub(crate) changed: AHashMap<u64, Option<u64>>,
    pub(crate) transient: AHashSet<u64>,
    pub(crate) ser_count: usize,
}

impl View for ComponentChanges {
    type V = Map<u64, Option<u64>>;

    closed spec fn view(&self) -> Map<u64, Option<u64>> {
        opt_map_contents(self.changed)
    }
}

impl ComponentChanges {
    /// The changes are finite.
    pub closed spec fn wf(&self) -> bool {
        opt_map_contents(self.changed).dom().finite()
    }

    pub(crate) proof fn lemma_contents(&self)
        ensures
            self@ == opt_map_contents(self.changed),
            self.wf() == opt_map_contents(self.changed).dom().finite(),
            self.transient_types() == u64_set_contents(self.transient),
            forall|k: u64| self.flag_of(k) == u64_set_contents(self.transient).contains(k),
            self.serializable_count() == self.ser_count,
    {
    }

    /// The component types that the changes record as transient.
    pub closed spec fn transient_types(&self) -> Set<u64> {
        u64_set_contents(self.transient)
    }

    /// Whether the changes record the component type with the given id as
    /// transient.
    pub open spec fn flag_of(&self, k: u64) -> bool {
        self.transient_types().contains(k)
    }

    /// The component type with the given id, as the changes record it.
    pub open spec fn type_of(&self, k: u64) -> ErasedComponentType {
        ErasedComponentType { id: k, transient: self.flag_of(k) }
    }

    /// The number of serializable changes, as counted when they were made.
    pub closed spec fn serializable_count(&self) -> nat {
        self.ser_count as nat
    }

    /// Returns a builder for `ComponentChanges`.
    pub fn builder() -> (r: Builder)
        ensures
            r@ == Map::<u64, Option<u64>>::empty(),
            r.wf(),
    {
        Builder { changes: opt_map_new(), transient: u64_set_new() }
    }

    /// The change of the component with given type: `Some(Some(v))` when
    /// it is set to `v`, `Some(None)` when it is removed, `None` when it
    /// is not changed.
    pub fn get(&self, ty: u64) -> (r: Option<Option<u64>>)
        ensures
            r == (if self@.contains_key(ty) {
                Some(self@[ty])
            } else {
                None
            }),
    {
        opt_map_get(&self.changed, ty)
    }

    /// Returns number of changed components.
    pub fn len(&self) -> (r: usize)
        ensures
            r == self@.dom().len(),
    {
        opt_map_len(&self.changed)
    }

    /// Returns `true` if there are no changed components.
    pub fn is_empty(&self) -> (r: bool)
        ensures
            r == (self@.dom().len() == 0),
    {
        opt_map_len(&self.changed) == 0
    }
}

/// The components that changes set.
pub open spec fn added(c: Map<u64, Option<u64>>) -> Map<u64, u64> {
    Map::new(|k: u64| c.contains_key(k) && c[k] is Some, |k: u64| c[k]->0)
}

/// The component types that changes remove.
pub open spec fn removed(c: Map<u64, Option<u64>>) -> Set<u64> {
    Set::new(|k: u64| c.contains_key(k) && c[k] is None)
}

impl ComponentChanges {
    /// Retains only the changes whose component type the predicate accepts,
    /// and counts the serializable changes that remain.
    pub fn retain<F: Fn(ErasedComponentType) -> bool>(self, f: F) -> (r: ComponentChanges)
        requires
            self.wf(),
            forall|t: ErasedComponentType| #[trigger] f.requires((t,)),
        ensures
            r.wf(),
            forall|k: u64| #[trigger]
                r@.contains_key(k) ==> self@.contains_key(k) && r@[k] == self@[k] && f.ensures(
                    (self.type_of(k),),
                    true,
                ),
            forall|k: u64| #[trigger]
                self@.contains_key(k) && !r@.contains_key(k) ==> f.ensures(
                    (self.type_of(k),),
                    false,
                ),
            forall|k: u64| r.flag_of(k) == self.flag_of(k),
            r.serializable_count() == serializable_types(r@, r.transient_types()).len(),
    {
        let ghost orig = self@;
        let ghost this = self;
        let ComponentChanges { changed, transient, .. } = self;
        let mut changed = changed;
        let keys = opt_map_keys(&changed);
        let mut i: usize = 0;
        while i < keys.len()
            invariant
                i <= keys.len(),
                keys@.to_set() == orig.dom(),
                keys@.no_duplicates(),
                orig == this@,
                orig.dom().finite(),
                u64_set_contents(transient) == u64_set_contents(this.transient),
                forall|t: ErasedComponentType| #[trigger] f.requires((t,)),
                opt_map_contents(changed).dom().finite(),
                forall|k: u64| #[trigger]
                    opt_map_contents(changed).contains_key(k) ==> orig.contains_key(k)
                        && opt_map_contents(changed)[k] == orig[k],
                forall|j: int|
                    i <= j < keys.len() ==> opt_map_contents(changed).contains_key(
                        #[trigger] keys@[j],
                    ),
                forall|j: int|
                    0 <= j < i ==> (opt_map_contents(changed).contains_key(#[trigger] keys@[j])
                        ==> f.ensures((this.type_of(keys@[j]),), true)) && (
                    !opt_map_contents(changed).contains_key(keys@[j]) ==> f.ensures(
                        (this.type_of(keys@[j]),),
                        false,
                    )),
            decreases keys.len() - i,
        {
            let k = keys[i];
            let ty = ErasedComponentType { id: k, transient: u64_set_contains(&transient, k) };
            proof {
                this.lemma_contents();
                assert(ty == this.type_of(k));
            }
            let keep = f(ty);
            if !keep {
                opt_map_remove(&mut changed, k);
            }
            proof {
                assert forall|j: int| i < j < keys.len() implies opt_map_contents(
                    changed,
                ).contains_key(#[trigger] keys@[j]) by {
                    assert(keys@[j] != keys@[i as int]);
                }
                assert forall|j: int| 0 <= j < i implies opt_map_contents(changed).contains_key(
                    #[trigger] keys@[j],
                ) == opt_map_contents(changed).contains_key(keys@[j]) by {}
            }
            i = i + 1;
        }
        proof {
            assert forall|k: u64| #[trigger]
                orig.contains_key(k) && !opt_map_contents(changed).contains_key(k) implies f.ensures(
                (this.type_of(k),),
                false,
            ) by {
                assert(keys@.to_set().contains(k));
                let j = choose|j: int| 0 <= j < keys.len() && keys@[j] == k;
            }
            assert forall|k: u64| #[trigger]
                opt_map_contents(changed).contains_key(k) implies f.ensures(
                (this.type_of(k),),
                true,
            ) by {
                assert(keys@.to_set().contains(k));
                let j = choose|j: int| 0 <= j < keys.len() && keys@[j] == k;
            }
            this.lemma_contents();
        }
        let ser_count = count_serializable(&changed, &transient);
        ComponentChanges { changed, transient, ser_count }
    }
}

impl ComponentChanges {
    /// Converts the changes into a pair of the added components and the set
    /// of removed component types.
    pub fn into_added_removed_pair<'a>(self) -> (r: (ComponentMap<'a>, AHashSet<u64>))
        requires
            self.wf(),
        ensures
            r.0@ == added(self@),
            u64_set_contents(r.1) == removed(self@),
            r.0.wf(),
            r.0.counted(),
            !r.0.is_patched(),
            forall|k: u64| #[trigger] r.0@.contains_key(k) ==> r.0.flag_of(k) == self.flag_of(k),
    {
        let ghost c = self@;
        proof {
            self.lemma_contents();
        }
        if self.is_empty() {
            proof {
                assert(c.dom() =~= Set::<u64>::empty()) by {
                    if exists|k: u64| c.dom().contains(k) {
                        let k = choose|k: u64| c.dom().contains(k);
                        vstd::set::axiom_set_remove_len(c.dom(), k);
                    }
                }
                assert(added(c) =~= Map::<u64, u64>::empty());
                assert(removed(c) =~= Set::<u64>::empty());
            }
            return (ComponentMap::empty(), u64_set_new());
        }
        let keys = opt_map_keys(&self.changed);
        let mut builder = ComponentMap::builder();
        let mut set = u64_set_new();
        let mut i: usize = 0;
        while i < keys.len()
            invariant
                i <= keys.len(),
                keys@.to_set() == c.dom(),
                keys@.no_duplicates(),
                c == self@,
                c == opt_map_contents(self.changed),
                builder.wf(),
                builder@ == added(c).restrict(keys@.take(i as int).to_set()),
                u64_set_contents(set) == removed(c).intersect(keys@.take(i as int).to_set()),
                forall|k: u64| #[trigger]
                    builder@.contains_key(k) ==> builder.flag_of(k) == self.flag_of(k),
            decreases keys.len() - i,
        {
            let k = keys[i];
            let ghost prefix = keys@.take(i as int).to_set();
            proof {
                assert(keys@.take(i + 1 as int) =~= keys@.take(i as int).push(k));
                keys@.take(i as int).lemma_push_to_set_commute(k);
                assert(keys@.to_set().contains(k));
            }
            let ty = ErasedComponentType { id: k, transient: u64_set_contains(&self.transient, k) };
            match opt_map_get(&self.changed, k) {
                Some(Some(v)) => {
                    builder.insert_raw(ty, v);
                    proof {
                        assert(builder@ =~= added(c).restrict(prefix.insert(k)));
                        assert(u64_set_contents(set) =~= removed(c).intersect(prefix.insert(k)));
                    }
                },
                _ => {
                    u64_set_insert(&mut set, k);
                    proof {
                        assert(builder@ =~= added(c).restrict(prefix.insert(k)));
                        assert(u64_set_contents(set) =~= removed(c).intersect(prefix.insert(k)));
                    }
                },
            }
            i = i + 1;
        }
        proof {
            assert(keys@.take(keys.len() as int) =~= keys@);
            assert(added(c).restrict(c.dom()) =~= added(c));
            assert(removed(c).intersect(c.dom()) =~= removed(c));
        }
        (builder.build(), set)
    }

    /// The number of serializable changes, as counted when they were made;
    /// serializers take it as the size of the map they write.
    pub fn serializable_len(&self) -> (r: usize)
        ensures
            r == self.serializable_count(),
    {
        self.ser_count
    }

    /// Whether `s` lists the changes of types that are not transient, each
    /// once, with its type as a key that tells whether the change removes it.
    pub open spec fn lists_serializable(&self, s: Seq<(Type, Option<u64>)>) -> bool {
        &&& forall|i: int|
            0 <= i < s.len() ==> {
                let (t, v) = #[trigger] s[i];
                &&& self@.contains_key(t.ty.id)
                &&& !self.flag_of(t.ty.id)
                &&& t.ty == self.type_of(t.ty.id)
                &&& t.rm == (self@[t.ty.id] is None)
                &&& v == self@[t.ty.id]
            }
        &&& forall|k: u64|
            self@.contains_key(k) && !self.flag_of(k) ==> exists|i: int|
                0 <= i < s.len() && (#[trigger] s[i]).0.ty.id == k
        &&& forall|i: int, j: int|
            0 <= i < s.len() && 0 <= j < s.len() && i != j ==> (#[trigger] s[i]).0.ty.id != (
            #[trigger] s[j]).0.ty.id
    }

    /// The changes to serialize: those of types that are not transient, each
    /// with its type as a key that tells whether the change removes it.
    pub fn serialized_entries(&self) -> (r: Vec<(Type, Option<u64>)>)
        requires
            self.wf(),
        ensures
            self.lists_serializable(r@),
    {
        let ghost c = self@;
        proof {
            self.lemma_contents();
        }
        let keys = opt_map_keys(&self.changed);
        let mut out: Vec<(Type, Option<u64>)> = Vec::new();
        let mut i: usize = 0;
        while i < keys.len()
            invariant
                i <= keys.len(),
                keys@.to_set() == c.dom(),
                keys@.no_duplicates(),
                c == self@,
                c == opt_map_contents(self.changed),
                forall|k: u64| self.flag_of(k) == u64_set_contents(self.transient).contains(k),
                forall|m: int|
                    0 <= m < out@.len() ==> {
                        let (t, v) = #[trigger] out@[m];
                        &&& c.contains_key(t.ty.id)
                        &&& !self.flag_of(t.ty.id)
                        &&& t.ty == self.type_of(t.ty.id)
                        &&& t.rm == (c[t.ty.id] is None)
                        &&& v == c[t.ty.id]
                        &&& exists|j: int| 0 <= j < i && keys@[j] == t.ty.id
                    },
                forall|j: int|
                    0 <= j < i && !self.flag_of(#[trigger] keys@[j]) ==> exists|m: int|
                        0 <= m < out@.len() && (#[trigger] out@[m]).0.ty.id == keys@[j],
                forall|m1: int, m2: int|
                    0 <= m1 < out@.len() && 0 <= m2 < out@.len() && m1 != m2 ==> (
                    #[trigger] out@[m1]).0.ty.id != (#[trigger] out@[m2]).0.ty.id,
            decreases keys.len() - i,
        {
            let k = keys[i];
            proof {
                assert(keys@.to_set().contains(k));
            }
            let transient = u64_set_contains(&self.transient, k);
            if !transient {
                let v = match opt_map_get(&self.changed, k) {
                    Some(v) => v,
                    None => None,
                };
                let ghost before = out@;
                let ty = Type { ty: ErasedComponentType { id: k, transient: false }, rm: v.is_none() };
                out.push((ty, v));
                proof {
                    assert forall|m: int| 0 <= m < before.len() implies (#[trigger] out@[m]).0.ty.id
                        != k by {
                        let j = choose|j: int| 0 <= j < i && keys@[j] == before[m].0.ty.id;
                        assert(keys@[j] != keys@[i as int]);
                    }
                    assert(out@[before.len() as int] == (ty, v));
                    assert forall|j: int|
                        0 <= j < i + 1 && !self.flag_of(#[trigger] keys@[j]) implies exists|m: int|
                        0 <= m < out@.len() && (#[trigger] out@[m]).0.ty.id == keys@[j] by {
                        if j == i {
                            assert(out@[before.len() as int].0.ty.id == keys@[j]);
                        } else {
                            let m = choose|m: int|
                                0 <= m < before.len() && (#[trigger] before[m]).0.ty.id == keys@[j];
                            assert(out@[m] == before[m]);
                        }
                    }
                }
            }
            i = i + 1;
        }
        proof {
            assert forall|k: u64| c.contains_key(k) && !self.flag_of(k) implies exists|m: int|
                0 <= m < out@.len() && (#[trigger] out@[m]).0.ty.id == k by {
                assert(keys@.to_set().contains(k));
                let j = choose|j: int| 0 <= j < keys.len() && keys@[j] == k;
                assert(!self.flag_of(keys@[j]));
            }
        }
        out
    }
}

/// The prefix that marks a removed component type in a serialized key.
pub const REMOVED_PREFIX: char = '!';

/// A component type as a key of serialized changes: the key of a removed
/// type is its identifier after a `!`.
#[derive(Debug, Clone, Copy, PartialEq, Eq, Structural)]
pub struct Type {
    /// The component type.
    pub ty: ErasedComponentType,
    /// Whether the change removes the component.
    pub rm: bool,
}

/// Errors of reading a component type from a serialized key.
#[derive(Debug, Clone, Copy, PartialEq, Eq, Structural)]
pub enum TypeError {
    /// The key holds no valid identifier.
    InvalidIdentifier,
    /// No component type is registered under the identifier.
    UnknownType,
    /// The component type is transient, so never serialized.
    NotSerializable,
}

/// The removal prefix followed by the identifier.
fn prefixed(id: &str) -> (r: String)
    ensures
        r@ == seq![REMOVED_PREFIX] + id@,
{
    let mut r = String::from_str("!");
    proof {
        reveal_strlit("!");
    }
    r.append(id);
    r
}

/// The serialized key of a type with the given identifier: the identifier,
/// after a `!` when the change removes the type.
pub open spec fn key_chars(rm: bool, id: Seq<char>) -> Seq<char> {
    if rm {
        seq![REMOVED_PREFIX] + id
    } else {
        id
    }
}

/// A serialized key split into whether it marks a removed type and the
/// identifier after the mark.
pub open spec fn split_chars(key: Seq<char>) -> (bool, Seq<char>) {
    if key.len() > 0 && key[0] == REMOVED_PREFIX {
        (true, key.drop_first())
    } else {
        (false, key)
    }
}

impl Type {
    /// The serialized key of this type, given its identifier as a string.
    pub fn key(&self, id: &str) -> (r: String)
        ensures
            r@ == key_chars(self.rm, id@),
    {
        if self.rm {
            prefixed(id)
        } else {
            id.to_owned()
        }
    }

    /// Splits a serialized key into whether it marks a removed type and the
    /// identifier after the mark.
    pub fn split_key(key: &str) -> (r: (bool, &str))
        ensures
            (r.0, r.1@) == split_chars(key@),
    {
        let n = key.unicode_len();
        if n > 0 && key.get_char(0) == REMOVED_PREFIX {
            let rest = key.substring_char(1, n);
            proof {
                assert(rest@ =~= key@.drop_first());
            }
            (true, rest)
        } else {
            (false, key)
        }
    }

    /// The key type for a type found under the key's identifier, if any;
    /// transient types are never keys.
    pub fn resolve(rm: bool, found: Option<ErasedComponentType>) -> (r: Result<Type, TypeError>)
        ensures
            found is None ==> r == Err::<Type, TypeError>(TypeError::UnknownType),
            found is Some && found->0.transient ==> r == Err::<Type, TypeError>(
                TypeError::NotSerializable,
            ),
            found is Some && !found->0.transient ==> r == Ok::<Type, TypeError>(
                Type { ty: found->0, rm },
            ),
    {
        match found {
            None => Err(TypeError::UnknownType),
            Some(t) => if t.transient {
                Err(TypeError::NotSerializable)
            } else {
                Ok(Type { ty: t, rm })
            },
        }
    }
}

/// The changes that deserialized entries give: each entry sets its type to
/// its value, or removes it when the key marks the type removed; a later
/// entry for a type replaces an earlier one.
pub open spec fn deserialized_changes(entries: Seq<(Type, u64)>) -> Map<u64, Option<u64>>
    decreases entries.len(),
{
    if entries.len() == 0 {
        Map::empty()
    } else {
        let (t, v) = entries.last();
        deserialized_changes(entries.drop_last()).insert(
            t.ty.id,
            if t.rm {
                None
            } else {
                Some(v)
            },
        )
    }
}

impl ComponentChanges {
    /// Builds the changes that deserialized entries give; every entry counts
    /// as serializable.
    pub fn from_deserialized(entries: Vec<(Type, u64)>) -> (r: ComponentChanges)
        ensures
            r.wf(),
            r@ == deserialized_changes(entries@),
            r.serializable_count() == r@.dom().len(),
            forall|k: u64| #[trigger]
                r@.contains_key(k) ==> exists|i: int|
                    0 <= i < entries@.len() && entries@[i].0.ty == r.type_of(k),
    {
        let mut changed = opt_map_new();
        let mut transient = u64_set_new();
        let mut i: usize = 0;
        while i < entries.len()
            invariant
                i <= entries.len(),
                opt_map_contents(changed) == deserialized_changes(entries@.take(i as int)),
                opt_map_contents(changed).dom().finite(),
                forall|k: u64| #[trigger]
                    opt_map_contents(changed).contains_key(k) ==> exists|j: int|
                        0 <= j < i && entries@[j].0.ty == (ErasedComponentType {
                            id: k,
                            transient: u64_set_contents(transient).contains(k),
                        }),
            decreases entries.len() - i,
        {
            let (t, v) = entries[i];
            proof {
                assert(entries@.take(i + 1 as int).drop_last() =~= entries@.take(i as int));
            }
            record_flag(&mut transient, t.ty.id, t.ty.transient);
            if t.rm {
                opt_map_insert(&mut changed, t.ty.id, None);
            } else {
                opt_map_insert(&mut changed, t.ty.id, Some(v));
            }
            i = i + 1;
        }
        proof {
            assert(entries@.take(entries@.len() as int) =~= entries@);
        }
        let len = opt_map_len(&changed);
        ComponentChanges { changed, transient, ser_count: len }
    }
}

/// Builder for [`ComponentChanges`].
pub struct Builder {
    changes: AHashMap<u64, Option<u64>>,
    transient: AHashSet<u64>,
}

impl View for Builder {
    type V = Map<u64, Option<u64>>;

    closed spec fn view(&self) -> Map<u64, Option<u64>> {
        opt_map_contents(self.changes)
    }
}

impl Builder {
    /// The changes are finite.
    pub closed spec fn wf(&self) -> bool {
        opt_map_contents(self.changes).dom().finite()
    }

    /// Whether the builder records the component type with the given id as
    /// transient.
    pub closed spec fn flag_of(&self, k: u64) -> bool {
        u64_set_contents(self.transient).contains(k)
    }

    /// Inserts a component type with a valid value.
    pub fn insert(&mut self, ty: ErasedComponentType, value: u64)
        requires
            old(self).wf(),
        ensures
            final(self).wf(),
            final(self)@ == old(self)@.insert(ty.id, Some(value)),
            final(self).flag_of(ty.id) == ty.transient,
            forall|k: u64| k != ty.id ==> final(self).flag_of(k) == old(self).flag_of(k),
    {
        record_flag(&mut self.transient, ty.id, ty.transient);
        opt_map_insert(&mut self.changes, ty.id, Some(value));
    }

    /// Inserts a component type with an empty value.
    pub fn remove(&mut self, ty: ErasedComponentType)
        requires
            old(self).wf(),
        ensures
            final(self).wf(),
            final(self)@ == old(self)@.insert(ty.id, None),
            final(self).flag_of(ty.id) == ty.transient,
            forall|k: u64| k != ty.id ==> final(self).flag_of(k) == old(self).flag_of(k),
    {
        record_flag(&mut self.transient, ty.id, ty.transient);
        opt_map_insert(&mut self.changes, ty.id, None);
    }

    /// Builds the changes into a [`ComponentChanges`], which counts as
    /// serializable the changed types that are not transient.
    pub fn build(self) -> (r: ComponentChanges)
        requires
            self.wf(),
        ensures
            r@ == self@,
            r.serializable_count() == serializable_types(r@, r.transient_types()).len(),
            r.wf(),
            forall|k: u64| r.flag_of(k) == self.flag_of(k),
    {
        let ser_count = count_serializable(&self.changes, &self.transient);
        ComponentChanges { changed: self.changes, transient: self.transient, ser_count }
    }
}

/// Splitting the key written for a type gives back whether it is removed
/// and its identifier, for any identifier that does not itself start with
/// the removal mark.
pub proof fn lemma_key_roundtrip(rm: bool, id: Seq<char>)
    requires
        !(id.len() > 0 && id[0] == REMOVED_PREFIX),
    ensures
        split_chars(key_chars(rm, id)) == (rm, id),
{
    if rm {
        assert((seq![REMOVED_PREFIX] + id).drop_first() =~= id);
    }
}

/// The entry that deserializing reads for a serialized change: a removal
/// carries a placeholder value, which is not read.
pub open spec fn read_back(e: (Type, Option<u64>)) -> (Type, u64) {
    (
        e.0,
        match e.1 {
            Some(v) => v,
            None => 0,
        },
    )
}

/// Entries with distinct types deserialize into the changes that map each
/// type to its entry.
proof fn lemma_deserialized_changes_distinct(s: Seq<(Type, u64)>)
    requires
        forall|i: int, j: int|
            0 <= i < s.len() && 0 <= j < s.len() && i != j ==> (#[trigger] s[i]).0.ty.id != (
            #[trigger] s[j]).0.ty.id,
    ensures
        forall|k: u64|
            #[trigger] deserialized_changes(s).contains_key(k) <==> exists|i: int|
                0 <= i < s.len() && s[i].0.ty.id == k,
        forall|i: int|
            0 <= i < s.len() ==> deserialized_changes(s)[(#[trigger] s[i]).0.ty.id] == if s[i].0.rm {
                None
            } else {
                Some(s[i].1)
            },
    decreases s.len(),
{
    if s.len() > 0 {
        let t = s.drop_last();
        lemma_deserialized_changes_distinct(t);
        let last = s.last();
        assert(deserialized_changes(s) == deserialized_changes(t).insert(
            last.0.ty.id,
            if last.0.rm {
                None
            } else {
                Some(last.1)
            },
        ));
        assert forall|k: u64| #[trigger]
            deserialized_changes(s).contains_key(k) <==> exists|i: int|
                0 <= i < s.len() && s[i].0.ty.id == k by {
            if deserialized_changes(s).contains_key(k) && k != last.0.ty.id {
                assert(deserialized_changes(t).contains_key(k));
                let i = choose|i: int| 0 <= i < t.len() && t[i].0.ty.id == k;
                assert(s[i] == t[i]);
            }
            if deserialized_changes(s).contains_key(k) && k == last.0.ty.id {
                assert(s[s.len() - 1].0.ty.id == k);
            }
            if exists|i: int| 0 <= i < s.len() && s[i].0.ty.id == k {
                let i = choose|i: int| 0 <= i < s.len() && s[i].0.ty.id == k;
                if i < s.len() - 1 {
                    assert(t[i] == s[i]);
                }
            }
        }
        assert forall|i: int| 0 <= i < s.len() implies deserialized_changes(s)[(
        #[trigger] s[i]).0.ty.id] == if s[i].0.rm {
            None
        } else {
            Some(s[i].1)
        } by {
            if i < s.len() - 1 {
                assert(t[i] == s[i]);
                assert(s[i].0.ty.id != s[s.len() - 1].0.ty.id);
            }
        }
    }
}

/// Deserializing what changes serialize gives back their changes of types
/// that are not transient.
pub proof fn lemma_changes_serde_roundtrip(c: &ComponentChanges, s: Seq<(Type, Option<u64>)>)
    requires
        c.wf(),
        c.lists_serializable(s),
    ensures
        deserialized_changes(s.map_values(|e: (Type, Option<u64>)| read_back(e))) == c@.restrict(
            c@.dom().filter(|k: u64| !c.flag_of(k)),
        ),
{
    let r = s.map_values(|e: (Type, Option<u64>)| read_back(e));
    assert forall|i: int| 0 <= i < r.len() implies #[trigger] r[i] == read_back(s[i]) by {}
    lemma_deserialized_changes_distinct(r);
    let expected = c@.restrict(c@.dom().filter(|k: u64| !c.flag_of(k)));
    assert forall|k: u64| #[trigger] deserialized_changes(r).contains_key(k)
        <==> expected.contains_key(k) by {
        if deserialized_changes(r).contains_key(k) {
            let i = choose|i: int| 0 <= i < r.len() && r[i].0.ty.id == k;
            assert(r[i] == read_back(s[i]));
        }
        if expected.contains_key(k) {
            let i = choose|i: int| 0 <= i < s.len() && (#[trigger] s[i]).0.ty.id == k;
            assert(r[i] == read_back(s[i]));
        }
    }
    assert forall|k: u64| #[trigger] deserialized_changes(r).contains_key(k) implies deserialized_changes(
        r,
    )[k] == expected[k] by {
        let i = choose|i: int| 0 <= i < r.len() && r[i].0.ty.id == k;
        assert(r[i] == read_back(s[i]));
        assert(deserialized_changes(r)[r[i].0.ty.id] == if r[i].0.rm {
            None
        } else {
            Some(r[i].1)
        });
    }
    assert(deserialized_changes(r) =~= expected);
}

} // verus!
