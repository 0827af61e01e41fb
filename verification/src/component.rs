//! Component maps: maps from component types to component values, either
//! built outright or patched over a base map.
//!
//! A component type is identified by its raw `u64` id, and a component value
//! by a `u64` that stands for it.

pub mod changes;
pub mod packet;

use ahash::{AHashMap, AHashSet};
use vstd::prelude::*;

use self::changes::ComponentChanges;

use crate::index_map::{
    opt_map_contents, opt_map_get, opt_map_get_mut, opt_map_insert, opt_map_keys, opt_map_len, opt_map_new,
    opt_map_remove, u64_map_clone, u64_map_contents, u64_map_get_mut, u64_map_keys, opt_map_clone, u64_set_clone, u64_set_contains, u64_set_items, u64_map_get, u64_map_insert, u64_map_len, u64_map_new,
    u64_map_remove, u64_set_contents, u64_set_insert, u64_set_new, u64_set_remove,
};

verus! {

/// A component type with its registration information.
#[derive(Debug, Clone, Copy, PartialEq, Eq, Hash, Structural)]
pub struct ErasedComponentType {
    /// The raw id of the type.
    pub id: u64,
    /// Whether values of the type are skipped when serializing.
    pub transient: bool,
}

impl ErasedComponentType {
    /// Returns whether the component is transient: skipped when serializing.
    pub fn is_transient(&self) -> (r: bool)
        ensures
            r == self.transient,
    {
        self.transient
    }
}

/// The map that a patched map shows: the changes where there are some, the
/// base elsewhere; a change to `None` removes the component.
pub open spec fn patched(base: Map<u64, u64>, changes: Map<u64, Option<u64>>) -> Map<u64, u64> {
    Map::new(
        |k: u64|
            if changes.contains_key(k) {
                changes[k] is Some
            } else {
                base.contains_key(k)
            },
        |k: u64|
            if changes.contains_key(k) {
                changes[k].unwrap()
            } else {
                base[k]
            },
    )
}

/// The value a map holds under a key, if any.
pub open spec fn map_get(m: Map<u64, u64>, k: u64) -> Option<u64> {
    if m.contains_key(k) {
        Some(m[k])
    } else {
        None
    }
}

enum MapInner<'a> {
    Empty,
    Patched {
        base: &'a ComponentMap<'a>,
        changes: AHashMap<u64, Option<u64>>,
        transient: AHashSet<u64>,
        changes_count: isize,
    },
    Simple(AHashMap<u64, u64>, AHashSet<u64>),
}

/// Records in `set` whether the type `k` is transient.
pub(crate) fn record_flag(set: &mut AHashSet<u64>, k: u64, transient: bool)
    ensures
        u64_set_contents(*final(set)) == (if transient {
            u64_set_contents(*old(set)).insert(k)
        } else {
            u64_set_contents(*old(set)).remove(k)
        }),
{
    if transient {
        u64_set_insert(set, k);
    } else {
        u64_set_remove(set, k);
    }
}

/// A map that stores components.
pub struct ComponentMap<'a> {
    inner: MapInner<'a>,
}

proof fn lemma_patched_dom(base: Map<u64, u64>, changes: Map<u64, Option<u64>>)
    requires
        base.dom().finite(),
        changes.dom().finite(),
    ensures
        patched(base, changes).dom() == base.dom().union(changes.dom()).filter(
            |k: u64|
                if changes.contains_key(k) {
                    changes[k] is Some
                } else {
                    base.contains_key(k)
                },
        ),
        patched(base, changes).dom().finite(),
{
    let p = patched(base, changes);
    let f = |k: u64|
        if changes.contains_key(k) {
            changes[k] is Some
        } else {
            base.contains_key(k)
        };
    assert(p.dom() =~= base.dom().union(changes.dom()).filter(f));
    vstd::set_lib::lemma_set_union_finite_iff(base.dom(), changes.dom());
    base.dom().union(changes.dom()).lemma_len_filter(f);
}

impl<'a> ComponentMap<'a> {
    /// The components this map holds.
    pub closed spec fn contents(&self) -> Map<u64, u64>
        decreases self,
    {
        match self.inner {
            MapInner::Empty => Map::empty(),
            MapInner::Patched { base, changes, .. } => patched(
                base.contents(),
                opt_map_contents(changes),
            ),
            MapInner::Simple(m, _) => u64_map_contents(m),
        }
    }

    /// Whether this map records the component type with the given id as
    /// transient: the change's flag where there is a change, the base's
    /// elsewhere.
    pub closed spec fn flag_of(&self, k: u64) -> bool
        decreases self,
    {
        match self.inner {
            MapInner::Empty => false,
            MapInner::Patched { base, changes, transient, .. } => if opt_map_contents(
                changes,
            ).contains_key(k) {
                u64_set_contents(transient).contains(k)
            } else {
                base.flag_of(k)
            },
            MapInner::Simple(_, t) => u64_set_contents(t).contains(k),
        }
    }

    /// The component type with the given id, as this map records it.
    pub open spec fn type_of(&self, k: u64) -> ErasedComponentType {
        ErasedComponentType { id: k, transient: self.flag_of(k) }
    }

    /// The flags recorded with the changes of a patched map.
    pub closed spec fn changes_flags(&self) -> Set<u64> {
        match self.inner {
            MapInner::Patched { transient, .. } => u64_set_contents(transient),
            _ => Set::empty(),
        }
    }

    /// The length this map reports: the base's length and the count of
    /// changes for a patched map.
    pub closed spec fn len_spec(&self) -> int
        decreases self,
    {
        match self.inner {
            MapInner::Empty => 0,
            MapInner::Patched { base, changes_count, .. } => base.len_spec() + changes_count,
            MapInner::Simple(m, _) => u64_map_contents(m).dom().len() as int,
        }
    }

    /// Whether this is the empty map, which holds nothing.
    pub closed spec fn is_empty_map(&self) -> bool {
        self.inner is Empty
    }

    /// Whether this map is patched over a base map.
    pub closed spec fn is_patched(&self) -> bool {
        self.inner is Patched
    }

    /// The components of the base of a patched map.
    pub closed spec fn base_contents(&self) -> Map<u64, u64> {
        match self.inner {
            MapInner::Patched { base, .. } => base.contents(),
            _ => Map::empty(),
        }
    }

    /// The changes of a patched map.
    pub closed spec fn changes_contents(&self) -> Map<u64, Option<u64>> {
        match self.inner {
            MapInner::Patched { changes, .. } => opt_map_contents(changes),
            _ => Map::empty(),
        }
    }

    /// The change count of a patched map.
    pub closed spec fn changes_count(&self) -> int {
        match self.inner {
            MapInner::Patched { changes_count, .. } => changes_count as int,
            _ => 0,
        }
    }

    /// Invariant: the maps are finite, the reported length is the number of
    /// components, here and in every base, and a patched map's lengths fit
    /// an `isize`.
    pub closed spec fn wf(&self) -> bool
        decreases self,
    {
        &&& match self.inner {
            MapInner::Empty => true,
            MapInner::Patched { base, changes, .. } => {
                &&& base.wf()
                &&& opt_map_contents(changes).dom().finite()
                &&& base.len_spec() <= isize::MAX
                &&& self.len_spec() <= isize::MAX
            },
            MapInner::Simple(m, _) => u64_map_contents(m).dom().finite(),
        }
        &&& self.contents().dom().finite()
        &&& self.contents().dom().len() <= self.len_spec()
        &&& self.counted()
    }

    /// The reported length is the number of components, here and in every base.
    pub closed spec fn counted(&self) -> bool
        decreases self,
    {
        &&& self.len_spec() == self.contents().dom().len()
        &&& match self.inner {
            MapInner::Patched { base, .. } => base.counted(),
            _ => true,
        }
    }
}

impl<'a> ComponentMap<'a> {
    proof fn lemma_wf_len(&self)
        requires
            self.wf(),
        ensures
            0 <= self.len_spec(),
            self.is_patched() ==> self.len_spec() <= isize::MAX,
    {
    }
}

impl<'a> View for ComponentMap<'a> {
    type V = Map<u64, u64>;

    open spec fn view(&self) -> Map<u64, u64> {
        self.contents()
    }
}

impl<'a> ComponentMap<'a> {
    /// Creates an empty component map.
    pub fn empty() -> (r: Self)
        ensures
            r@ == Map::<u64, u64>::empty(),
            r.is_empty_map(),
            !r.is_patched(),
            r.len_spec() == 0,
            r.wf(),
            r.counted(),
    {
        let r = ComponentMap { inner: MapInner::Empty };
        assert(r.contents().dom() =~= Set::<u64>::empty());
        r
    }

    /// Creates a **patched** component map with given base map.
    pub fn new(base: &'a ComponentMap<'a>) -> (r: Self)
        requires
            base.wf(),
            base.len_spec() <= isize::MAX,
        ensures
            r@ == base@,
            r.is_patched(),
            r.base_contents() == base@,
            r.changes_contents() == Map::<u64, Option<u64>>::empty(),
            r.len_spec() == base.len_spec(),
            r.wf(),
            base.counted() ==> r.counted(),
    {
        let changes = opt_map_new();
        let transient = u64_set_new();
        let r = ComponentMap {
            inner: MapInner::Patched { base, changes, transient, changes_count: 0 },
        };
        assert(r.contents() =~= base.contents());
        r
    }

    /// Gets the component with given type.
    pub fn get_raw(&self, ty: u64) -> (r: Option<u64>)
        ensures
            r == map_get(self@, ty),
        decreases self,
    {
        match &self.inner {
            MapInner::Empty => None,
            MapInner::Patched { base, changes, .. } => match opt_map_get(changes, ty) {
                Some(v) => v,
                None => base.get_raw(ty),
            },
            MapInner::Simple(m, _) => u64_map_get(m, ty),
        }
    }

    /// Gets the component with given type and its type as this map records it.
    pub fn get_key_value_raw(&self, ty: u64) -> (r: Option<(ErasedComponentType, u64)>)
        ensures
            r == (if self@.contains_key(ty) {
                Some((self.type_of(ty), self@[ty]))
            } else {
                None
            }),
        decreases self,
    {
        match &self.inner {
            MapInner::Empty => None,
            MapInner::Patched { base, changes, transient, .. } => match opt_map_get(changes, ty) {
                Some(Some(v)) => Some(
                    (ErasedComponentType { id: ty, transient: u64_set_contains(transient, ty) }, v),
                ),
                Some(None) => None,
                None => base.get_key_value_raw(ty),
            },
            MapInner::Simple(m, t) => match u64_map_get(m, ty) {
                Some(v) => Some((ErasedComponentType { id: ty, transient: u64_set_contains(t, ty) }, v)),
                None => None,
            },
        }
    }

    /// Returns whether a component with given type exist.
    pub fn contains_raw(&self, ty: u64) -> (r: bool)
        ensures
            r == self@.contains_key(ty),
        decreases self,
    {
        match &self.inner {
            MapInner::Empty => false,
            MapInner::Patched { base, changes, .. } => match opt_map_get(changes, ty) {
                Some(v) => v.is_some(),
                None => base.contains_raw(ty),
            },
            MapInner::Simple(m, _) => u64_map_get(m, ty).is_some(),
        }
    }

    /// Returns the count of valid components.
    pub fn len(&self) -> (r: usize)
        requires
            self.wf(),
        ensures
            r == self.len_spec(),
            r == self@.dom().len(),
        decreases self,
    {
        match &self.inner {
            MapInner::Empty => 0,
            MapInner::Patched { base, changes_count, .. } => {
                let b = base.len();
                proof {
                    base.lemma_wf_len();
                }
                (b as isize + *changes_count) as usize
            },
            MapInner::Simple(m, _) => u64_map_len(m),
        }
    }

    /// Returns whether this map is empty.
    pub fn is_empty(&self) -> (r: bool)
        requires
            self.wf(),
        ensures
            r == (self.len_spec() == 0),
            r == (self@.dom().len() == 0),
    {
        self.len() == 0
    }
}

impl<'a> ComponentMap<'a> {
    /// Gets the component with given type, with mutable access. A patched
    /// map first copies the component of its base into its changes, so that
    /// writing through the reference changes this map only.
    #[verifier::spinoff_prover]
    pub fn get_mut_raw(&mut self, ty: u64) -> (r: Option<&mut u64>)
        requires
            old(self).wf(),
        ensures
            r is Some <==> old(self)@.contains_key(ty),
            r is Some ==> *r->0 == old(self)@[ty] && final(self)@ == old(self)@.insert(
                ty,
                *final(r->0),
            ),
            r is None ==> final(self)@ == old(self)@,
            final(self).wf(),
            final(self).len_spec() == old(self).len_spec(),
            final(self).is_empty_map() == old(self).is_empty_map(),
            final(self).is_patched() == old(self).is_patched(),
            final(self).base_contents() == old(self).base_contents(),
            old(self).counted() ==> final(self).counted(),
            forall|k: u64| #[trigger] final(self).flag_of(k) == old(self).flag_of(k),
    {
        let ghost before = *self;
        proof {
            lemma_component_dom_finite(before);
        }
        match &mut self.inner {
            MapInner::Empty => None,
            MapInner::Patched { base, changes, transient, .. } => {
                let ghost b = base@;
                if opt_map_get(changes, ty).is_none() {
                    match base.get_key_value_raw(ty) {
                        Some((k, v)) => {
                            record_flag(transient, ty, k.transient);
                            opt_map_insert(changes, ty, Some(v));
                            proof {
                                assert(patched(b, opt_map_contents(*changes)) =~= patched(
                                    b,
                                    before.changes_contents(),
                                ));
                            }
                        },
                        None => {},
                    }
                }
                let ghost mid = opt_map_contents(*changes);
                proof {
                    assert(patched(b, mid) =~= before@);
                }
                match opt_map_get_mut(changes, ty) {
                    Some(slot) => match slot {
                        Some(v) => {
                            proof {
                                assert(patched(b, mid.insert(ty, Some(*final(v)))) =~= before@.insert(
                                    ty,
                                    *final(v),
                                ));
                                assert(mid.insert(ty, Some(*final(v))).dom() =~= mid.dom());
                                assert(before@.insert(ty, *final(v)).dom() =~= before@.dom());
                            }
                            Some(v)
                        },
                        None => {
                            proof {
                                assert(mid.insert(ty, None) =~= mid);
                            }
                            None
                        },
                    },
                    None => None,
                }
            },
            MapInner::Simple(m, _) => {
                let r = u64_map_get_mut(m, ty);
                proof {
                    if r is Some {
                        assert(before@.dom().contains(ty));
                        assert(before@.insert(ty, *final(r->0)).dom() =~= before@.dom());
                    }
                }
                r
            },
        }
    }

    /// Whether the base of a patched map holds `val` under `ty`: inserting it
    /// then drops the change for `ty` instead of recording one.
    pub closed spec fn keeps_base_value(&self, ty: u64, val: u64) -> bool {
        &&& self.is_patched()
        &&& self.base_contents().contains_key(ty)
        &&& self.base_contents()[ty] == val
    }

    /// What the shape of a map tells about it: the empty map holds nothing,
    /// reports no length and is not patched; `keeps_base_value` reads the
    /// base; a counted map reports the number of its components.
    pub proof fn lemma_shape(&self)
        ensures
            self.is_empty_map() ==> self@ == Map::<u64, u64>::empty() && self.len_spec() == 0
                && !self.is_patched(),
            forall|ty: u64, val: u64| #[trigger]
                self.keeps_base_value(ty, val) == (self.is_patched() && self.base_contents().contains_key(ty)
                    && self.base_contents()[ty] == val),
            self.counted() ==> self.len_spec() == self@.dom().len(),
            self.wf() ==> 0 <= self.len_spec(),
    {
        if self.is_empty_map() {
            assert(self@ =~= Map::<u64, u64>::empty());
        }
    }

    /// Inserts a component into this map, and returns the old one if valid.
    ///
    /// The empty map becomes a simple map that holds the component. A
    /// patched map records the component as a change, unless its base holds
    /// that very value: then the change for the type is dropped.
    pub fn insert(&mut self, ty: ErasedComponentType, val: u64) -> (r: Option<u64>)
        requires
            old(self).wf(),
            old(self).is_patched() ==> old(self).len_spec() < isize::MAX,
        ensures
            final(self).wf(),
            !final(self).is_empty_map(),
            final(self).is_patched() == old(self).is_patched(),
            final(self).base_contents() == old(self).base_contents(),
            final(self)@ == old(self)@.insert(ty.id, val),
            r == map_get(old(self)@, ty.id),
            final(self).len_spec() == old(self).len_spec() + (if r is None {
                1int
            } else {
                0int
            }),
            old(self).is_patched() ==> final(self).changes_contents() == (if old(self).keeps_base_value(
                ty.id,
                val,
            ) {
                old(self).changes_contents().remove(ty.id)
            } else {
                old(self).changes_contents().insert(ty.id, Some(val))
            }),
            old(self).counted() ==> final(self).counted(),
            forall|k: u64| k != ty.id ==> final(self).flag_of(k) == old(self).flag_of(k),
            !old(self).keeps_base_value(ty.id, val) ==> final(self).flag_of(ty.id) == ty.transient,
    {
        let id = ty.id;
        let ghost before = *self;
        if let MapInner::Empty = self.inner {
            let mut m = u64_map_new();
            let mut t = u64_set_new();
            record_flag(&mut t, id, ty.transient);
            u64_map_insert(&mut m, id, val);
            self.inner = MapInner::Simple(m, t);
            proof {
                assert(self@ =~= before@.insert(id, val));
                assert(self@.dom() =~= Set::<u64>::empty().insert(id));
            }
            return None;
        }
        let value = match &mut self.inner {
            MapInner::Empty => None,
            MapInner::Patched { base, changes, transient, changes_count } => {
                let old_value = base.get_raw(id);
                let same = match old_value {
                    Some(o) => o == val,
                    None => false,
                };
                let value = if same {
                    match opt_map_remove(changes, id) {
                        Some(v) => v,
                        None => old_value,
                    }
                } else {
                    record_flag(transient, id, ty.transient);
                    match opt_map_insert(changes, id, Some(val)) {
                        Some(v) => v,
                        None => old_value,
                    }
                };
                proof {
                    before.lemma_wf_len();
                    base.lemma_wf_len();
                    let b = base.contents();
                    assert(patched(b, opt_map_contents(*changes)) =~= patched(
                        b,
                        before.changes_contents(),
                    ).insert(id, val));
                }
                if value.is_none() {
                    *changes_count = *changes_count + 1;
                }
                value
            },
            MapInner::Simple(m, t) => {
                record_flag(t, id, ty.transient);
                u64_map_insert(m, id, val)
            },
        };
        proof {
            let d = before@.dom();
            lemma_component_dom_finite(before);
            if before@.contains_key(id) {
                assert(self@.dom() =~= d);
            } else {
                assert(self@.dom() =~= d.insert(id));
            }
        }
        value
    }

    /// Removes a component with given type, and returns it if valid.
    pub fn remove(&mut self, ty: ErasedComponentType) -> (r: Option<u64>)
        requires
            old(self).wf(),
        ensures
            final(self).wf(),
            final(self).is_empty_map() == old(self).is_empty_map(),
            final(self).is_patched() == old(self).is_patched(),
            final(self).base_contents() == old(self).base_contents(),
            final(self)@ == old(self)@.remove(ty.id),
            r == map_get(old(self)@, ty.id),
            final(self).len_spec() == old(self).len_spec() - (if r is Some {
                1int
            } else {
                0int
            }),
            old(self).counted() ==> final(self).counted(),
            forall|k: u64| k != ty.id ==> final(self).flag_of(k) == old(self).flag_of(k),
            old(self).is_patched() && old(self).base_contents().contains_key(ty.id) ==> final(self).flag_of(ty.id) == ty.transient,
            old(self).is_patched() ==> final(self).changes_contents() == (if old(
                self,
            ).base_contents().contains_key(ty.id) {
                old(self).changes_contents().insert(ty.id, None)
            } else {
                old(self).changes_contents().remove(ty.id)
            }),
    {
        let id = ty.id;
        let ghost before = *self;
        let value = match &mut self.inner {
            MapInner::Empty => None,
            MapInner::Patched { base, changes, transient, changes_count } => {
                let old_value = base.get_raw(id);
                let now = opt_map_get(changes, id);
                let value = match (old_value, now) {
                    (Some(v), None) => {
                        record_flag(transient, id, ty.transient);
                        opt_map_insert(changes, id, None);
                        Some(v)
                    },
                    (Some(_), Some(n)) => {
                        record_flag(transient, id, ty.transient);
                        opt_map_insert(changes, id, None);
                        n
                    },
                    (None, Some(_)) => match opt_map_remove(changes, id) {
                        Some(x) => x,
                        None => None,
                    },
                    (None, None) => {
                        proof {
                            assert(opt_map_contents(*changes) =~= before.changes_contents().remove(id));
                        }
                        None
                    },
                };
                proof {
                    before.lemma_wf_len();
                    base.lemma_wf_len();
                    let b = base.contents();
                    assert(patched(b, opt_map_contents(*changes)) =~= patched(
                        b,
                        before.changes_contents(),
                    ).remove(id));
                }
                if value.is_some() {
                    *changes_count = *changes_count - 1;
                }
                value
            },
            MapInner::Simple(m, _) => u64_map_remove(m, id),
        };
        proof {
            let d = before@.dom();
            lemma_component_dom_finite(before);
            if before@.contains_key(id) {
                assert(self@.dom() =~= d.remove(id));
            } else {
                assert(self@.dom() =~= d);
            }
        }
        value
    }
}

/// Every listing of a map, such as [`ComponentMap::iter`] gives, has as
/// many entries as the map reports with [`ComponentMap::len`], which is the
/// number of its components.
pub proof fn lemma_listing_len(m: &ComponentMap, s: Seq<(ErasedComponentType, u64)>)
    requires
        m.wf(),
        m.lists(s),
    ensures
        s.len() == m.len_spec(),
        m.len_spec() == m@.dom().len(),
{
    let ids = s.map_values(|e: (ErasedComponentType, u64)| e.0.id);
    assert forall|i: int, j: int| 0 <= i < ids.len() && 0 <= j < ids.len() && i != j implies ids[i]
        != ids[j] by {
        assert(s[i].0.id != s[j].0.id);
    }
    assert(ids.to_set() =~= m@.dom()) by {
        assert forall|k: u64| m@.dom().contains(k) implies ids.to_set().contains(k) by {
            let i = choose|i: int| 0 <= i < s.len() && s[i].0.id == k;
            assert(ids[i] == k);
        }
        assert forall|k: u64| ids.to_set().contains(k) implies m@.dom().contains(k) by {
            let i = choose|i: int| 0 <= i < ids.len() && ids[i] == k;
            assert(s[i].0.id == k);
        }
    }
    ids.unique_seq_to_set();
}

proof fn lemma_component_dom_finite(m: ComponentMap)
    requires
        m.wf(),
    ensures
        m@.dom().finite(),
{
}

/// A builder for creating a simple component map.
pub struct Builder {
    map: AHashMap<u64, u64>,
    transient: AHashSet<u64>,
}

impl View for Builder {
    type V = Map<u64, u64>;

    closed spec fn view(&self) -> Map<u64, u64> {
        u64_map_contents(self.map)
    }
}

impl Builder {
    /// The builder's map is finite.
    pub closed spec fn wf(&self) -> bool {
        u64_map_contents(self.map).dom().finite()
    }

    /// Whether the builder records the component type with the given id as
    /// transient.
    pub closed spec fn flag_of(&self, k: u64) -> bool {
        u64_set_contents(self.transient).contains(k)
    }

    /// Inserts a component into this map.
    pub fn insert(&mut self, ty: ErasedComponentType, val: u64)
        requires
            old(self).wf(),
        ensures
            final(self).wf(),
            final(self)@ == old(self)@.insert(ty.id, val),
            final(self).flag_of(ty.id) == ty.transient,
            forall|k: u64| k != ty.id ==> final(self).flag_of(k) == old(self).flag_of(k),
    {
        record_flag(&mut self.transient, ty.id, ty.transient);
        u64_map_insert(&mut self.map, ty.id, val);
    }

    /// Inserts a component into this map.
    ///
    /// This function is similar to `insert`, but it receives a value that
    /// is already type-erased.
    pub fn insert_raw(&mut self, ty: ErasedComponentType, val: u64)
        requires
            old(self).wf(),
        ensures
            final(self).wf(),
            final(self)@ == old(self)@.insert(ty.id, val),
            final(self).flag_of(ty.id) == ty.transient,
            forall|k: u64| k != ty.id ==> final(self).flag_of(k) == old(self).flag_of(k),
    {
        record_flag(&mut self.transient, ty.id, ty.transient);
        u64_map_insert(&mut self.map, ty.id, val);
    }

    /// Inserts each of the components in turn: a later component of a type
    /// replaces an earlier one.
    pub fn extend(&mut self, entries: Vec<(ErasedComponentType, u64)>)
        requires
            old(self).wf(),
        ensures
            final(self).wf(),
            final(self)@ == old(self)@.union_prefer_right(deserialized_map(entries@)),
            forall|k: u64| #[trigger]
                final(self).flag_of(k) == if deserialized_flags(entries@).contains_key(k) {
                    deserialized_flags(entries@)[k]
                } else {
                    old(self).flag_of(k)
                },
    {
        let ghost start = *self;
        let mut i: usize = 0;
        while i < entries.len()
            invariant
                i <= entries.len(),
                self.wf(),
                self@ == start@.union_prefer_right(deserialized_map(entries@.take(i as int))),
                forall|k: u64| #[trigger]
                    self.flag_of(k) == if deserialized_flags(entries@.take(i as int)).contains_key(
                        k,
                    ) {
                        deserialized_flags(entries@.take(i as int))[k]
                    } else {
                        start.flag_of(k)
                    },
            decreases entries.len() - i,
        {
            let (t, v) = entries[i];
            proof {
                assert(entries@.take(i + 1 as int).drop_last() =~= entries@.take(i as int));
                assert(entries@.take(i + 1 as int).last() == (t, v));
            }
            self.insert_raw(t, v);
            proof {
                assert(self@ =~= start@.union_prefer_right(
                    deserialized_map(entries@.take(i + 1 as int)),
                ));
            }
            i = i + 1;
        }
        proof {
            assert(entries@.take(entries@.len() as int) =~= entries@);
        }
    }

    /// Builds the component map: the empty map when nothing was inserted.
    pub fn build<'a>(self) -> (r: ComponentMap<'a>)
        requires
            self.wf(),
        ensures
            r@ == self@,
            r.is_empty_map() == (self@.dom().len() == 0),
            !r.is_patched(),
            r.wf(),
            r.counted(),
            forall|k: u64| r@.contains_key(k) ==> r.flag_of(k) == self.flag_of(k),
    {
        if u64_map_len(&self.map) == 0 {
            let r = ComponentMap { inner: MapInner::Empty };
            proof {
                assert(self@.dom() =~= Set::<u64>::empty()) by {
                    if exists|k: u64| self@.dom().contains(k) {
                        let k = choose|k: u64| self@.dom().contains(k);
                        vstd::set::axiom_set_remove_len(self@.dom(), k);
                    }
                }
                assert(r.contents() =~= self@);
            }
            r
        } else {
            let ghost len = self@.dom().len();
            let r = ComponentMap { inner: MapInner::Simple(self.map, self.transient) };
            proof {
                assert(len <= usize::MAX);
            }
            r
        }
    }
}

impl<'a> ComponentMap<'a> {
    /// Returns a builder for creating a simple component map.
    pub fn builder() -> (r: Builder)
        ensures
            r@ == Map::<u64, u64>::empty(),
            r.wf(),
    {
        Builder { map: u64_map_new(), transient: u64_set_new() }
    }

    /// Returns a builder for creating a simple component map; the capacity
    /// is a hint about how many components will be inserted.
    pub fn builder_with_capacity(capacity: usize) -> (r: Builder)
        ensures
            r@ == Map::<u64, u64>::empty(),
            r.wf(),
    {
        Builder { map: u64_map_new(), transient: u64_set_new() }
    }
}

/// How many components a change adds to a map over `base`: one when it sets
/// a type the base lacks, minus one when it removes a type the base holds.
pub open spec fn change_delta(base: Map<u64, u64>, k: u64, v: Option<u64>) -> int {
    if v is Some {
        if base.contains_key(k) {
            0
        } else {
            1
        }
    } else {
        if base.contains_key(k) {
            -1
        } else {
            0
        }
    }
}

/// Recording one more change moves the number of components by its delta.
proof fn lemma_patch_step(base: Map<u64, u64>, changes: Map<u64, Option<u64>>, k: u64, v: Option<
    u64,
>)
    requires
        base.dom().finite(),
        changes.dom().finite(),
        !changes.contains_key(k),
    ensures
        patched(base, changes.insert(k, v)).dom().len() == patched(base, changes).dom().len()
            + change_delta(base, k, v),
{
    let p0 = patched(base, changes);
    let p1 = patched(base, changes.insert(k, v));
    lemma_patched_dom(base, changes);
    lemma_patched_dom(base, changes.insert(k, v));
    if v is Some {
        if base.contains_key(k) {
            assert(p1.dom() =~= p0.dom());
        } else {
            assert(p1.dom() =~= p0.dom().insert(k));
        }
    } else {
        if base.contains_key(k) {
            assert(p1.dom() =~= p0.dom().remove(k));
        } else {
            assert(p1.dom() =~= p0.dom());
        }
    }
}

impl<'a> ComponentMap<'a> {
    /// Creates a **patched** component map with given base map and changes.
    ///
    /// The change count is the number of components the changes add to the
    /// base, less the number they remove from it.
    pub fn with_changes(base: &'a ComponentMap<'a>, changes: ComponentChanges) -> (r: Self)
        requires
            base.wf(),
            changes.wf(),
            base.len_spec() + changes@.dom().len() <= isize::MAX,
        ensures
            r.wf(),
            r.is_patched(),
            r@ == patched(base@, changes@),
            r.base_contents() == base@,
            r.changes_contents() == changes@,
            r.changes_count() == patched(base@, changes@).dom().len() - base@.dom().len(),
            r.len_spec() == base.len_spec() + r.changes_count(),
            base.counted() ==> r.counted(),
            forall|k: u64| #[trigger]
                r.flag_of(k) == if changes@.contains_key(k) {
                    changes.flag_of(k)
                } else {
                    base.flag_of(k)
                },
    {
        let keys = opt_map_keys(&changes.changed);
        let ghost c = changes@;
        let ghost b = base@;
        proof {
            changes.lemma_contents();
            lemma_component_dom_finite(*base);
            base.lemma_wf_len();
            keys@.unique_seq_to_set();
        }
        let mut count: isize = 0;
        let mut i: usize = 0;
        proof {
            assert(c.restrict(keys@.take(0).to_set()) =~= Map::<u64, Option<u64>>::empty());
            assert(patched(b, Map::<u64, Option<u64>>::empty()).dom() =~= b.dom());
        }
        while i < keys.len()
            invariant
                i <= keys.len(),
                keys@.to_set() == c.dom(),
                keys@.no_duplicates(),
                c == changes@,
                c == opt_map_contents(changes.changed),
                b == base@,
                b.dom().finite(),
                c.dom().finite(),
                keys.len() == c.dom().len(),
                0 <= base.len_spec(),
                base.len_spec() + c.dom().len() <= isize::MAX,
                count == patched(b, c.restrict(keys@.take(i as int).to_set())).dom().len()
                    - b.dom().len(),
                -(i as int) <= count <= i,
            decreases keys.len() - i,
        {
            let k = keys[i];
            let ghost prefix = keys@.take(i as int).to_set();
            let ghost next = keys@.take(i + 1 as int).to_set();
            proof {
                assert(keys@.to_set().contains(k));
                assert(keys@.take(i + 1 as int) =~= keys@.take(i as int).push(k));
                keys@.take(i as int).lemma_push_to_set_commute(k);
                assert(!prefix.contains(k)) by {
                    if prefix.contains(k) {
                        let j = choose|j: int| 0 <= j < i && keys@.take(i as int)[j] == k;
                        assert(keys@[j] == keys@[i as int]);
                    }
                }
                assert(c.restrict(prefix).dom().finite()) by {
                    assert(c.restrict(prefix).dom() =~= c.dom().intersect(prefix));
                }
                assert(c.restrict(next) =~= c.restrict(prefix).insert(k, c[k]));
                lemma_patch_step(b, c.restrict(prefix), k, c[k]);
            }
            let occupied = base.contains_raw(k);
            let v = opt_map_get(&changes.changed, k);
            match v {
                Some(Some(_)) => {
                    if !occupied {
                        count = count + 1;
                    }
                },
                Some(None) => {
                    if occupied {
                        count = count - 1;
                    }
                },
                None => {},
            }
            i = i + 1;
        }
        proof {
            assert(keys@.take(keys.len() as int) =~= keys@);
            changes.lemma_contents();
            assert(c.restrict(c.dom()) =~= c);
            lemma_patched_dom(b, c);
        }
        let r = ComponentMap {
            inner: MapInner::Patched {
                base,
                changes: changes.changed,
                transient: changes.transient,
                changes_count: count,
            },
        };
        r
    }
}

/// The changed types that are serialized: those not recorded as transient.
pub open spec fn serializable_types(changes: Map<u64, Option<u64>>, transient: Set<u64>) -> Set<
    u64,
> {
    not_in(changes.dom(), transient)
}

/// The items of `s` that are not in `t`.
pub open spec fn not_in(s: Set<u64>, t: Set<u64>) -> Set<u64> {
    s.filter(|k: u64| !t.contains(k))
}

impl<'a> ComponentMap<'a> {
    /// Whether `s` lists the components of this map, each once, with its
    /// type as this map records it.
    pub open spec fn lists(&self, s: Seq<(ErasedComponentType, u64)>) -> bool {
        &&& forall|i: int|
            0 <= i < s.len() ==> {
                let (t, v) = #[trigger] s[i];
                &&& self@.contains_key(t.id)
                &&& v == self@[t.id]
                &&& t == self.type_of(t.id)
            }
        &&& forall|k: u64| #[trigger]
            self@.contains_key(k) ==> exists|i: int| 0 <= i < s.len() && s[i].0.id == k
        &&& forall|i: int, j: int|
            0 <= i < s.len() && 0 <= j < s.len() && i != j ==> (#[trigger] s[i]).0.id != (
            #[trigger] s[j]).0.id
    }

    /// Returns the changes of this map, if it is patched. They count as
    /// serializable the changed types not recorded as transient.
    pub fn changes(&self) -> (r: Option<ComponentChanges>)
        requires
            self.wf(),
        ensures
            self.is_patched() <==> r is Some,
            r is Some ==> {
                let c = r->0;
                &&& c.wf()
                &&& c@ == self.changes_contents()
                &&& forall|k: u64| c.flag_of(k) == self.changes_flags().contains(k)
                &&& c.serializable_count() == serializable_types(
                    self.changes_contents(),
                    self.changes_flags(),
                ).len()
            },
    {
        match &self.inner {
            MapInner::Patched { changes, transient, .. } => {
                let ghost c = opt_map_contents(*changes);
                let ghost t = u64_set_contents(*transient);
                let keys = opt_map_keys(changes);
                let mut copy = opt_map_new();
                let mut count: usize = 0;
                let mut i: usize = 0;
                proof {
                    keys@.unique_seq_to_set();
                    assert(keys@.take(0).to_set() =~= Set::<u64>::empty());
                    assert(not_in(Set::<u64>::empty(), t) =~= Set::<u64>::empty());
                    assert(c.restrict(Set::<u64>::empty()) =~= Map::<u64, Option<u64>>::empty());
                }
                while i < keys.len()
                    invariant
                        i <= keys.len(),
                        keys@.to_set() == c.dom(),
                        keys@.no_duplicates(),
                        keys@.len() == c.dom().len(),
                        c == opt_map_contents(*changes),
                        t == u64_set_contents(*transient),
                        c.dom().finite(),
                        opt_map_contents(copy) == c.restrict(keys@.take(i as int).to_set()),
                        count == not_in(keys@.take(i as int).to_set(), t).len(),
                        count <= i,
                    decreases keys.len() - i,
                {
                    let k = keys[i];
                    let ghost prefix = keys@.take(i as int).to_set();
                    proof {
                        assert(keys@.take(i + 1 as int) =~= keys@.take(i as int).push(k));
                        keys@.take(i as int).lemma_push_to_set_commute(k);
                        assert(keys@.to_set().contains(k));
                        assert(!prefix.contains(k)) by {
                            if prefix.contains(k) {
                                let j = choose|j: int|
                                    0 <= j < i && keys@.take(i as int)[j] == k;
                                assert(keys@[j] == keys@[i as int]);
                            }
                        }
                        if !t.contains(k) {
                            assert(not_in(prefix.insert(k), t) =~= not_in(prefix, t).insert(k));
                        } else {
                            assert(not_in(prefix.insert(k), t) =~= not_in(prefix, t));
                        }
                    }
                    let v = match opt_map_get(changes, k) {
                        Some(v) => v,
                        None => None,
                    };
                    opt_map_insert(&mut copy, k, v);
                    if !u64_set_contains(transient, k) {
                        count = count + 1;
                    }
                    proof {
                        assert(opt_map_contents(copy) =~= c.restrict(prefix.insert(k)));
                    }
                    i = i + 1;
                }
                proof {
                    assert(keys@.take(keys.len() as int) =~= keys@);
                    assert(c.restrict(c.dom()) =~= c);
                }
                let items = u64_set_items(transient);
                let mut flags = u64_set_new();
                proof {
                    assert(items@.take(0).to_set() =~= Set::<u64>::empty());
                }
                let mut j: usize = 0;
                while j < items.len()
                    invariant
                        j <= items.len(),
                        items@.to_set() == t,
                        t == u64_set_contents(*transient),
                        u64_set_contents(flags) == items@.take(j as int).to_set(),
                    decreases items.len() - j,
                {
                    let k = items[j];
                    proof {
                        assert(items@.take(j + 1 as int) =~= items@.take(j as int).push(k));
                        items@.take(j as int).lemma_push_to_set_commute(k);
                    }
                    u64_set_insert(&mut flags, k);
                    j = j + 1;
                }
                proof {
                    assert(items@.take(items.len() as int) =~= items@);
                }
                let r = ComponentChanges { changed: copy, transient: flags, ser_count: count };
                proof {
                    r.lemma_contents();
                    assert(r@ == c);
                    assert(u64_set_contents(flags) =~= t);
                    assert(self.changes_contents() == c);
                    assert(self.changes_flags() == t);
                    assert(count == not_in(c.dom(), t).len());
                    assert(r.serializable_count() == serializable_types(c, t).len());
                }
                Some(r)
            },
            _ => None,
        }
    }

    /// Lists the components of this map. A patched map lists its changed
    /// components first, then those of its base that no change touches.
    pub fn iter(&self) -> (r: Vec<(ErasedComponentType, u64)>)
        requires
            self.wf(),
        ensures
            self.lists(r@),
        decreases self,
    {
        match &self.inner {
            MapInner::Empty => Vec::new(),
            MapInner::Patched { base, changes, transient, .. } => {
                let ghost c = opt_map_contents(*changes);
                let ghost b = base@;
                let keys = opt_map_keys(changes);
                let mut out: Vec<(ErasedComponentType, u64)> = Vec::new();
                let mut i: usize = 0;
                while i < keys.len()
                    invariant
                        i <= keys.len(),
                        keys@.to_set() == c.dom(),
                        keys@.no_duplicates(),
                        c == opt_map_contents(*changes),
                        self@ == patched(b, c),
                        b == base@,
                        forall|k: u64| #[trigger]
                            c.contains_key(k) ==> self.flag_of(k) == u64_set_contents(
                                *transient,
                            ).contains(k),
                        forall|m: int|
                            0 <= m < out@.len() ==> {
                                let (t, v) = #[trigger] out@[m];
                                &&& c.contains_key(t.id)
                                &&& c[t.id] == Some(v)
                                &&& t == self.type_of(t.id)
                                &&& exists|j: int| 0 <= j < i && keys@[j] == t.id
                            },
                        forall|j: int|
                            0 <= j < i && c[#[trigger] keys@[j]] is Some ==> exists|m: int|
                                0 <= m < out@.len() && (#[trigger] out@[m]).0.id == keys@[j],
                        forall|m1: int, m2: int|
                            0 <= m1 < out@.len() && 0 <= m2 < out@.len() && m1 != m2 ==> (
                            #[trigger] out@[m1]).0.id != (#[trigger] out@[m2]).0.id,
                    decreases keys.len() - i,
                {
                    let k = keys[i];
                    proof {
                        assert(keys@.to_set().contains(k));
                    }
                    match opt_map_get(changes, k) {
                        Some(Some(v)) => {
                            let ghost before = out@;
                            let ty = ErasedComponentType {
                                id: k,
                                transient: u64_set_contains(transient, k),
                            };
                            out.push((ty, v));
                            proof {
                                assert forall|m: int| 0 <= m < before.len() implies (
                                #[trigger] out@[m]).0.id != k by {
                                    let j = choose|j: int|
                                        0 <= j < i && keys@[j] == before[m].0.id;
                                    assert(keys@[j] != keys@[i as int]);
                                }
                                assert(out@[before.len() as int] == (ty, v));
                                assert forall|j: int|
                                    0 <= j < i + 1 && c[#[trigger] keys@[j]] is Some implies exists|
                                    m: int,
                                | 0 <= m < out@.len() && (#[trigger] out@[m]).0.id == keys@[j] by {
                                    if j == i {
                                        assert(out@[before.len() as int].0.id == keys@[j]);
                                    } else {
                                        let m = choose|m: int|
                                            0 <= m < before.len() && (#[trigger] before[m]).0.id
                                                == keys@[j];
                                        assert(out@[m] == before[m]);
                                    }
                                }
                            }
                        },
                        _ => {},
                    }
                    i = i + 1;
                }
                let from_base = base.iter();
                let ghost mid = out@;
                let mut n: usize = 0;
                while n < from_base.len()
                    invariant
                        n <= from_base.len(),
                        base.lists(from_base@),
                        c == opt_map_contents(*changes),
                        self@ == patched(b, c),
                        b == base@,
                        keys@.to_set() == c.dom(),
                        forall|k: u64|
                            !c.contains_key(k) ==> #[trigger] self.flag_of(k) == base.flag_of(k),
                        out@.len() >= mid.len(),
                        forall|m: int| 0 <= m < mid.len() ==> #[trigger] out@[m] == mid[m],
                        forall|m: int|
                            0 <= m < mid.len() ==> {
                                let (t, v) = #[trigger] mid[m];
                                &&& c.contains_key(t.id)
                                &&& c[t.id] == Some(v)
                                &&& t == self.type_of(t.id)
                            },
                        forall|m: int|
                            mid.len() <= m < out@.len() ==> {
                                let (t, v) = #[trigger] out@[m];
                                &&& !c.contains_key(t.id)
                                &&& b.contains_key(t.id)
                                &&& v == b[t.id]
                                &&& t == self.type_of(t.id)
                                &&& exists|q: int| 0 <= q < n && from_base@[q].0.id == t.id
                            },
                        forall|k: u64| #[trigger]
                            c.contains_key(k) && c[k] is Some ==> exists|m: int|
                                0 <= m < mid.len() && mid[m].0.id == k,
                        forall|q: int|
                            0 <= q < n && !c.contains_key(#[trigger] from_base@[q].0.id)
                                ==> exists|m: int|
                                0 <= m < out@.len() && (#[trigger] out@[m]).0.id
                                    == from_base@[q].0.id,
                        forall|m1: int, m2: int|
                            0 <= m1 < out@.len() && 0 <= m2 < out@.len() && m1 != m2 ==> (
                            #[trigger] out@[m1]).0.id != (#[trigger] out@[m2]).0.id,
                    decreases from_base.len() - n,
                {
                    let (t, v) = from_base[n];
                    let touched = match opt_map_get(changes, t.id) {
                        Some(_) => true,
                        None => false,
                    };
                    if !touched {
                        let ghost before = out@;
                        out.push((t, v));
                        proof {
                            assert forall|m: int| 0 <= m < before.len() implies (
                            #[trigger] out@[m]).0.id != t.id by {
                                if m < mid.len() {
                                    assert(before[m] == mid[m]);
                                } else {
                                    let q = choose|q: int|
                                        0 <= q < n && from_base@[q].0.id == before[m].0.id;
                                    assert(from_base@[q].0.id != from_base@[n as int].0.id);
                                }
                            }
                            assert(out@[before.len() as int] == (t, v));
                            assert forall|q: int|
                                0 <= q < n + 1 && !c.contains_key(
                                    #[trigger] from_base@[q].0.id,
                                ) implies exists|m: int|
                                0 <= m < out@.len() && (#[trigger] out@[m]).0.id
                                    == from_base@[q].0.id by {
                                if q == n {
                                    assert(out@[before.len() as int].0.id == from_base@[q].0.id);
                                } else {
                                    let m = choose|m: int|
                                        0 <= m < before.len() && (#[trigger] before[m]).0.id
                                            == from_base@[q].0.id;
                                    assert(out@[m] == before[m]);
                                }
                            }
                        }
                    }
                    n = n + 1;
                }
                proof {
                    assert forall|k: u64| #[trigger] self@.contains_key(k) implies exists|m: int|
                        0 <= m < out@.len() && out@[m].0.id == k by {
                        if c.contains_key(k) {
                            let m = choose|m: int| 0 <= m < mid.len() && mid[m].0.id == k;
                            assert(out@[m] == mid[m]);
                        } else {
                            assert(b.contains_key(k));
                            let q = choose|q: int|
                                0 <= q < from_base@.len() && from_base@[q].0.id == k;
                        }
                    }
                    assert forall|m: int| 0 <= m < out@.len() implies {
                        let (t, v) = #[trigger] out@[m];
                        &&& self@.contains_key(t.id)
                        &&& v == self@[t.id]
                        &&& t == self.type_of(t.id)
                    } by {
                        if m < mid.len() {
                            assert(out@[m] == mid[m]);
                        }
                    }
                }
                out
            },
            MapInner::Simple(m, transient) => {
                let keys = u64_map_keys(m);
                let ghost c = u64_map_contents(*m);
                let mut out: Vec<(ErasedComponentType, u64)> = Vec::new();
                let mut i: usize = 0;
                while i < keys.len()
                    invariant
                        i <= keys.len(),
                        keys@.to_set() == c.dom(),
                        keys@.no_duplicates(),
                        c == u64_map_contents(*m),
                        self@ == c,
                        forall|k: u64| self.flag_of(k) == u64_set_contents(*transient).contains(k),
                        out@.len() == i,
                        forall|q: int|
                            0 <= q < i ==> (#[trigger] out@[q]) == (
                            self.type_of(keys@[q]),
                            c[keys@[q]],
                        ),
                    decreases keys.len() - i,
                {
                    let k = keys[i];
                    proof {
                        assert(keys@.to_set().contains(k));
                    }
                    let v = match u64_map_get(m, k) {
                        Some(v) => v,
                        None => 0,
                    };
                    out.push((ErasedComponentType { id: k, transient: u64_set_contains(transient, k) }, v));
                    i = i + 1;
                }
                proof {
                    assert forall|k: u64| #[trigger] self@.contains_key(k) implies exists|q: int|
                        0 <= q < out@.len() && out@[q].0.id == k by {
                        assert(keys@.to_set().contains(k));
                        let q = choose|q: int| 0 <= q < keys@.len() && keys@[q] == k;
                        assert(out@[q].0.id == k);
                    }
                    assert forall|q1: int, q2: int|
                        0 <= q1 < out@.len() && 0 <= q2 < out@.len() && q1 != q2 implies (
                        #[trigger] out@[q1]).0.id != (#[trigger] out@[q2]).0.id by {
                        assert(out@[q1].0.id == keys@[q1]);
                        assert(out@[q2].0.id == keys@[q2]);
                    }
                    assert forall|q: int| 0 <= q < out@.len() implies {
                        let (t, v) = #[trigger] out@[q];
                        &&& self@.contains_key(t.id)
                        &&& v == self@[t.id]
                        &&& t == self.type_of(t.id)
                    } by {
                        assert(keys@.to_set().contains(keys@[q]));
                    }
                }
                out
            },
        }
    }
}

impl<'a> Clone for ComponentMap<'a> {
    /// A map with the same components: a patched map shares its base and
    /// copies its changes.
    fn clone(&self) -> (r: Self)
        ensures
            r@ == self@,
            r.is_empty_map() == self.is_empty_map(),
            r.is_patched() == self.is_patched(),
            r.base_contents() == self.base_contents(),
            r.changes_contents() == self.changes_contents(),
            r.changes_count() == self.changes_count(),
            r.len_spec() == self.len_spec(),
            self.wf() ==> r.wf(),
            self.counted() ==> r.counted(),
            forall|k: u64| #[trigger] r.flag_of(k) == self.flag_of(k),
    {
        match &self.inner {
            MapInner::Empty => ComponentMap { inner: MapInner::Empty },
            MapInner::Patched { base, changes, transient, changes_count } => ComponentMap {
                inner: MapInner::Patched {
                    base: *base,
                    changes: opt_map_clone(changes),
                    transient: u64_set_clone(transient),
                    changes_count: *changes_count,
                },
            },
            MapInner::Simple(m, t) => ComponentMap {
                inner: MapInner::Simple(u64_map_clone(m), u64_set_clone(t)),
            },
        }
    }
}

/// Errors of reading a component map from serialized entries.
#[derive(Debug, Clone, Copy, PartialEq, Eq, Structural)]
pub enum MapError {
    /// An entry is of a transient component type, which is never serialized.
    TransientType(ErasedComponentType),
}

/// The components that deserialized entries give: a later entry for a type
/// replaces an earlier one.
pub open spec fn deserialized_map(entries: Seq<(ErasedComponentType, u64)>) -> Map<u64, u64>
    decreases entries.len(),
{
    if entries.len() == 0 {
        Map::empty()
    } else {
        deserialized_map(entries.drop_last()).insert(entries.last().0.id, entries.last().1)
    }
}

/// Whether each type among the entries is transient, as the last entry of
/// that type says.
pub open spec fn deserialized_flags(entries: Seq<(ErasedComponentType, u64)>) -> Map<u64, bool>
    decreases entries.len(),
{
    if entries.len() == 0 {
        Map::empty()
    } else {
        deserialized_flags(entries.drop_last()).insert(
            entries.last().0.id,
            entries.last().0.transient,
        )
    }
}

impl<'a> ComponentMap<'a> {
    /// Whether `s` lists the components of this map whose types are not
    /// transient, each once, with its type as this map records it.
    pub open spec fn lists_serializable(&self, s: Seq<(ErasedComponentType, u64)>) -> bool {
        &&& forall|i: int|
            0 <= i < s.len() ==> {
                let (t, v) = #[trigger] s[i];
                &&& self@.contains_key(t.id)
                &&& v == self@[t.id]
                &&& t == self.type_of(t.id)
                &&& !t.transient
            }
        &&& forall|k: u64| #[trigger]
            self@.contains_key(k) && !self.flag_of(k) ==> exists|i: int|
                0 <= i < s.len() && s[i].0.id == k
        &&& forall|i: int, j: int|
            0 <= i < s.len() && 0 <= j < s.len() && i != j ==> (#[trigger] s[i]).0.id != (
            #[trigger] s[j]).0.id
    }

    /// The components to serialize: those of types that are not transient,
    /// each once.
    pub fn serialized_entries(&self) -> (r: Vec<(ErasedComponentType, u64)>)
        requires
            self.wf(),
        ensures
            self.lists_serializable(r@),
    {
        let all = self.iter();
        let mut out: Vec<(ErasedComponentType, u64)> = Vec::new();
        let mut i: usize = 0;
        while i < all.len()
            invariant
                i <= all.len(),
                self.lists(all@),
                forall|m: int|
                    0 <= m < out@.len() ==> {
                        let (t, v) = #[trigger] out@[m];
                        &&& self@.contains_key(t.id)
                        &&& v == self@[t.id]
                        &&& t == self.type_of(t.id)
                        &&& !t.transient
                        &&& exists|q: int| 0 <= q < i && all@[q].0.id == t.id
                    },
                forall|q: int|
                    0 <= q < i && !(#[trigger] all@[q]).0.transient ==> exists|m: int|
                        0 <= m < out@.len() && out@[m].0.id == all@[q].0.id,
                forall|m1: int, m2: int|
                    0 <= m1 < out@.len() && 0 <= m2 < out@.len() && m1 != m2 ==> (
                    #[trigger] out@[m1]).0.id != (#[trigger] out@[m2]).0.id,
            decreases all.len() - i,
        {
            let (t, v) = all[i];
            if !t.is_transient() {
                let ghost before = out@;
                out.push((t, v));
                proof {
                    assert forall|m: int| 0 <= m < before.len() implies (#[trigger] out@[m]).0.id
                        != t.id by {
                        let q = choose|q: int| 0 <= q < i && all@[q].0.id == before[m].0.id;
                        assert(all@[q].0.id != all@[i as int].0.id);
                    }
                    assert(out@[before.len() as int] == (t, v));
                    assert forall|q: int|
                        0 <= q < i + 1 && !(#[trigger] all@[q]).0.transient implies exists|m: int|
                        0 <= m < out@.len() && out@[m].0.id == all@[q].0.id by {
                        if q == i {
                            assert(out@[before.len() as int].0.id == all@[q].0.id);
                        } else {
                            let m = choose|m: int|
                                0 <= m < before.len() && before[m].0.id == all@[q].0.id;
                            assert(out@[m] == before[m]);
                        }
                    }
                }
            }
            i = i + 1;
        }
        proof {
            assert forall|k: u64| #[trigger]
                self@.contains_key(k) && !self.flag_of(k) implies exists|m: int|
                0 <= m < out@.len() && out@[m].0.id == k by {
                let q = choose|q: int| 0 <= q < all@.len() && all@[q].0.id == k;
                assert(all@[q].0 == self.type_of(k));
            }
        }
        out
    }

    /// Builds the map that deserialized entries give; an entry of a
    /// transient type is an error, the first such entry being reported.
    pub fn from_deserialized(entries: Vec<(ErasedComponentType, u64)>) -> (r: Result<
        ComponentMap<'a>,
        MapError,
    >)
        ensures
            (forall|i: int| 0 <= i < entries@.len() ==> !(#[trigger] entries@[i]).0.transient)
                ==> r is Ok,
            r is Ok ==> {
                let m = r->Ok_0;
                &&& m@ == deserialized_map(entries@)
                &&& m.wf()
                &&& m.counted()
                &&& !m.is_patched()
                &&& forall|i: int| 0 <= i < entries@.len() ==> !(#[trigger] entries@[i]).0.transient
            },
            r matches Err(MapError::TransientType(t)) ==> exists|i: int|
                0 <= i < entries@.len() && entries@[i].0 == t && t.transient && forall|j: int|
                    0 <= j < i ==> !(#[trigger] entries@[j]).0.transient,
    {
        let mut builder = ComponentMap::builder();
        let mut i: usize = 0;
        while i < entries.len()
            invariant
                i <= entries.len(),
                builder.wf(),
                builder@ == deserialized_map(entries@.take(i as int)),
                forall|j: int| 0 <= j < i ==> !(#[trigger] entries@[j]).0.transient,
            decreases entries.len() - i,
        {
            let (t, v) = entries[i];
            if t.is_transient() {
                return Err(MapError::TransientType(t));
            }
            proof {
                assert(entries@.take(i + 1 as int).drop_last() =~= entries@.take(i as int));
            }
            builder.insert(t, v);
            i = i + 1;
        }
        proof {
            assert(entries@.take(entries@.len() as int) =~= entries@);
        }
        Ok(builder.build())
    }
}

/// Entries with distinct types deserialize into the map from each type to
/// its entry's value.
proof fn lemma_deserialized_map_distinct(s: Seq<(ErasedComponentType, u64)>)
    requires
        forall|i: int, j: int|
            0 <= i < s.len() && 0 <= j < s.len() && i != j ==> (#[trigger] s[i]).0.id != (
            #[trigger] s[j]).0.id,
    ensures
        forall|k: u64|
            #[trigger] deserialized_map(s).contains_key(k) <==> exists|i: int|
                0 <= i < s.len() && s[i].0.id == k,
        forall|i: int| 0 <= i < s.len() ==> deserialized_map(s)[(#[trigger] s[i]).0.id] == s[i].1,
    decreases s.len(),
{
    if s.len() > 0 {
        let t = s.drop_last();
        lemma_deserialized_map_distinct(t);
        assert(deserialized_map(s) == deserialized_map(t).insert(s.last().0.id, s.last().1));
        assert forall|k: u64| #[trigger]
            deserialized_map(s).contains_key(k) <==> exists|i: int|
                0 <= i < s.len() && s[i].0.id == k by {
            if deserialized_map(s).contains_key(k) && k != s.last().0.id {
                assert(deserialized_map(t).contains_key(k));
                let i = choose|i: int| 0 <= i < t.len() && t[i].0.id == k;
                assert(s[i] == t[i]);
            }
            if deserialized_map(s).contains_key(k) && k == s.last().0.id {
                assert(s[s.len() - 1].0.id == k);
            }
            if exists|i: int| 0 <= i < s.len() && s[i].0.id == k {
                let i = choose|i: int| 0 <= i < s.len() && s[i].0.id == k;
                if i < s.len() - 1 {
                    assert(t[i] == s[i]);
                }
            }
        }
        assert forall|i: int| 0 <= i < s.len() implies deserialized_map(s)[(#[trigger] s[i]).0.id]
            == s[i].1 by {
            if i < s.len() - 1 {
                assert(t[i] == s[i]);
                assert(s[i].0.id != s[s.len() - 1].0.id);
            }
        }
    }
}

/// A patched map shows its changes over its base: a map patched over the
/// same base with changes equal to its own shows the same components.
pub proof fn lemma_changes_reapply(m: &ComponentMap, c: Map<u64, Option<u64>>)
    requires
        m.is_patched(),
        c == m.changes_contents(),
    ensures
        patched(m.base_contents(), c) == m@,
{
}

/// Deserializing what a map serializes gives back its components whose
/// types are not transient.
pub proof fn lemma_map_serde_roundtrip(m: &ComponentMap, s: Seq<(ErasedComponentType, u64)>)
    requires
        m.wf(),
        m.lists_serializable(s),
    ensures
        deserialized_map(s) == m@.restrict(m@.dom().filter(|k: u64| !m.flag_of(k))),
{
    lemma_deserialized_map_distinct(s);
    let expected = m@.restrict(m@.dom().filter(|k: u64| !m.flag_of(k)));
    assert forall|k: u64| #[trigger] deserialized_map(s).contains_key(k) <==> expected.contains_key(
        k,
    ) by {
        if deserialized_map(s).contains_key(k) {
            let i = choose|i: int| 0 <= i < s.len() && s[i].0.id == k;
            assert(s[i].0 == m.type_of(k));
        }
    }
    assert forall|k: u64| #[trigger] deserialized_map(s).contains_key(k) implies deserialized_map(
        s,
    )[k] == expected[k] by {
        let i = choose|i: int| 0 <= i < s.len() && s[i].0.id == k;
        assert(deserialized_map(s)[s[i].0.id] == s[i].1);
    }
    assert(deserialized_map(s) =~= expected);
}

} // verus!
