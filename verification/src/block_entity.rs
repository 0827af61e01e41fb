//! Block entities: the flags that choose what of a block entity is
//! serialized, the names of its serialized fields, and the decisions taken
//! while reading one back.

use ahash::AHashSet;
use vstd::prelude::*;

use crate::block_pos::BlockPos;
use crate::component::changes::{added, ComponentChanges};
use crate::component::{Builder, ComponentMap, ErasedComponentType};
use crate::index_map::{u64_set_contains, u64_set_contents, u64_set_insert, u64_set_new};

verus! {

/// Whether two strings hold the same characters.
pub(crate) fn str_eq(a: &str, b: &str) -> (r: bool)
    ensures
        r == (a@ == b@),
{
    let x = a.to_owned();
    let y = b.to_owned();
    x == y
}

/// Essential flags for serializing a block entity.
#[derive(Debug, Clone, Copy, PartialEq, Eq, Structural)]
pub struct Flags {
    /// The bits of the flags set.
    pub bits: u8,
}

/// The bit of the flag that serializes the registration identifier.
pub const ID_BIT: u8 = 1;

/// The bit of the flag that serializes the position.
pub const POS_BIT: u8 = 2;

/// The bit of the flag that serializes the component map.
pub const COMPONENTS_BIT: u8 = 4;

impl Flags {
    /// The bits of the flags.
    pub open spec fn view_bits(&self) -> u8 {
        self.bits
    }

    /// Whether the flags hold the given bit.
    pub open spec fn has(&self, bit: u8) -> bool {
        self.bits & bit != 0
    }

    /// Serializes the registration identifier.
    pub fn id() -> (r: Flags)
        ensures
            r.view_bits() == ID_BIT,
    {
        Flags { bits: ID_BIT }
    }

    /// Serializes the position.
    pub fn pos() -> (r: Flags)
        ensures
            r.view_bits() == POS_BIT,
    {
        Flags { bits: POS_BIT }
    }

    /// Serializes the component map.
    pub fn components() -> (r: Flags)
        ensures
            r.view_bits() == COMPONENTS_BIT,
    {
        Flags { bits: COMPONENTS_BIT }
    }

    /// No flag.
    pub fn empty() -> (r: Flags)
        ensures
            r.view_bits() == 0,
    {
        Flags { bits: 0 }
    }

    /// Every flag.
    pub fn all() -> (r: Flags)
        ensures
            r.view_bits() == 7,
    {
        Flags { bits: 7 }
    }

    /// The bits of the flags.
    pub fn bits(&self) -> (r: u8)
        ensures
            r == self.view_bits(),
    {
        self.bits
    }

    /// The flags of the given bits, if every bit is a known flag.
    pub fn from_bits(bits: u8) -> (r: Option<Flags>)
        ensures
            bits < 8 ==> (r matches Some(f) && f.view_bits() == bits),
            bits >= 8 ==> r is None,
    {
        if bits < 8 {
            Some(Flags { bits })
        } else {
            None
        }
    }

    /// The flags of the given bits, dropping the bits of no known flag.
    pub fn from_bits_truncate(bits: u8) -> (r: Flags)
        ensures
            r.view_bits() == bits & 7,
    {
        Flags { bits: bits & 7 }
    }

    /// Whether no flag is set.
    pub fn is_empty(&self) -> (r: bool)
        ensures
            r == (self.view_bits() == 0),
    {
        self.bits == 0
    }

    /// Whether every flag of `other` is set.
    pub fn contains(&self, other: Flags) -> (r: bool)
        ensures
            r == (self.view_bits() & other.view_bits() == other.view_bits()),
    {
        self.bits & other.bits == other.bits
    }

    /// The flags set in either.
    pub fn union(self, other: Flags) -> (r: Flags)
        ensures
            r.view_bits() == self.view_bits() | other.view_bits(),
    {
        Flags { bits: self.bits | other.bits }
    }

    /// Serializes the identifier and position.
    pub fn identifying_data() -> (r: Flags)
        ensures
            r.view_bits() == POS_BIT | ID_BIT,
    {
        Flags::pos().union(Flags::id())
    }

    /// The flags that are set, one by one, in the order the flags are
    /// declared: identifier, position, components.
    pub fn iter(&self) -> (r: Vec<Flags>)
        ensures
            r@ == flag_seq(self.view_bits()),
    {
        let mut out: Vec<Flags> = Vec::new();
        if self.bits & ID_BIT != 0 {
            out.push(Flags::id());
        }
        if self.bits & POS_BIT != 0 {
            out.push(Flags::pos());
        }
        if self.bits & COMPONENTS_BIT != 0 {
            out.push(Flags::components());
        }
        out
    }
}

/// The single flags of the given bits, in the order the flags are declared.
pub open spec fn flag_seq(bits: u8) -> Seq<Flags> {
    (if bits & ID_BIT != 0 {
        seq![Flags { bits: ID_BIT }]
    } else {
        Seq::empty()
    }) + (if bits & POS_BIT != 0 {
        seq![Flags { bits: POS_BIT }]
    } else {
        Seq::empty()
    }) + (if bits & COMPONENTS_BIT != 0 {
        seq![Flags { bits: COMPONENTS_BIT }]
    } else {
        Seq::empty()
    })
}

impl Default for Flags {
    /// Serializes the component map only.
    fn default() -> (r: Flags)
        ensures
            r.view_bits() == COMPONENTS_BIT,
    {
        Flags::components()
    }
}

impl std::ops::BitOr for Flags {
    type Output = Flags;

    /// The flags set in either.
    fn bitor(self, rhs: Flags) -> (r: Flags) {
        self.union(rhs)
    }
}

impl vstd::std_specs::ops::BitOrSpecImpl for Flags {
    open spec fn obeys_bitor_spec() -> bool {
        true
    }

    open spec fn bitor_req(self, rhs: Flags) -> bool {
        true
    }

    open spec fn bitor_spec(self, rhs: Flags) -> Flags {
        Flags { bits: self.bits | rhs.bits }
    }
}

/// Data flagged by [`Flags`], for serialization.
pub struct Flagged<T>(pub T, pub Flags);

/// A field of a serialized block entity.
#[derive(Debug, Clone, PartialEq, Eq)]
pub enum Field {
    /// The registration identifier.
    Id,
    /// The component map.
    Components,
    /// The x-coordinate of the position.
    X,
    /// The y-coordinate of the position.
    Y,
    /// The z-coordinate of the position.
    Z,
    /// A field of the block entity's own data.
    Other(String),
}

/// The fields that the given flags write, in order; the component map only
/// when it is not empty.
pub open spec fn flagged_fields(bits: u8, components_empty: bool) -> Seq<Field> {
    (if bits & ID_BIT != 0 {
        seq![Field::Id]
    } else {
        Seq::empty()
    }) + (if bits & POS_BIT != 0 {
        seq![Field::X, Field::Y, Field::Z]
    } else {
        Seq::empty()
    }) + (if bits & COMPONENTS_BIT != 0 && !components_empty {
        seq![Field::Components]
    } else {
        Seq::empty()
    })
}

impl<T> Flagged<T> {
    /// The fields that serializing writes before the data's own fields, in
    /// order: for each flag that is set, in the order the flags are
    /// declared, the identifier, the three coordinates, and the component
    /// map unless it is empty.
    pub fn fields(&self, components_empty: bool) -> (r: Vec<Field>)
        ensures
            r@ == flagged_fields(self.1.view_bits(), components_empty),
    {
        let flags = self.1.iter();
        let mut out: Vec<Field> = Vec::new();
        let mut i: usize = 0;
        let ghost bits = self.1.view_bits();
        while i < flags.len()
            invariant
                i <= flags.len(),
                flags@ == flag_seq(bits),
                out@ == flagged_fields_of(flags@.take(i as int), components_empty),
            decreases flags.len() - i,
        {
            let f = flags[i];
            proof {
                assert(flags@.take(i + 1 as int) =~= flags@.take(i as int).push(f));
                lemma_fields_push(flags@.take(i as int), f, components_empty);
            }
            if f.bits == COMPONENTS_BIT {
                if !components_empty {
                    out.push(Field::Components);
                }
            } else if f.bits == ID_BIT {
                out.push(Field::Id);
            } else if f.bits == POS_BIT {
                out.push(Field::X);
                out.push(Field::Y);
                out.push(Field::Z);
            }
            i = i + 1;
        }
        proof {
            assert(flags@.take(flags.len() as int) =~= flags@);
            lemma_fields_of_flag_seq(bits, components_empty);
        }
        out
    }
}

/// The fields that single flags write, one after another.
pub open spec fn flagged_fields_of(flags: Seq<Flags>, components_empty: bool) -> Seq<Field>
    decreases flags.len(),
{
    if flags.len() == 0 {
        Seq::empty()
    } else {
        flagged_fields_of(flags.drop_last(), components_empty) + field_of_flag(
            flags.last(),
            components_empty,
        )
    }
}

/// The fields that a single flag writes.
pub open spec fn field_of_flag(f: Flags, components_empty: bool) -> Seq<Field> {
    if f.bits == COMPONENTS_BIT {
        if components_empty {
            Seq::empty()
        } else {
            seq![Field::Components]
        }
    } else if f.bits == ID_BIT {
        seq![Field::Id]
    } else if f.bits == POS_BIT {
        seq![Field::X, Field::Y, Field::Z]
    } else {
        Seq::empty()
    }
}

proof fn lemma_fields_push(s: Seq<Flags>, f: Flags, components_empty: bool)
    ensures
        flagged_fields_of(s.push(f), components_empty) == flagged_fields_of(s, components_empty)
            + field_of_flag(f, components_empty),
{
    assert(s.push(f).drop_last() =~= s);
}

proof fn lemma_fields_of_flag_seq(bits: u8, components_empty: bool)
    ensures
        flagged_fields_of(flag_seq(bits), components_empty) == flagged_fields(
            bits,
            components_empty,
        ),
{
    let a = if bits & ID_BIT != 0 {
        seq![Flags { bits: ID_BIT }]
    } else {
        Seq::empty()
    };
    let b = if bits & POS_BIT != 0 {
        seq![Flags { bits: POS_BIT }]
    } else {
        Seq::empty()
    };
    let c = if bits & COMPONENTS_BIT != 0 {
        seq![Flags { bits: COMPONENTS_BIT }]
    } else {
        Seq::empty()
    };
    let e = Seq::<Flags>::empty();
    let fa = field_of_flag(Flags { bits: ID_BIT }, components_empty);
    let fb = field_of_flag(Flags { bits: POS_BIT }, components_empty);
    let fc = field_of_flag(Flags { bits: COMPONENTS_BIT }, components_empty);
    assert(flagged_fields_of(e, components_empty) == Seq::<Field>::empty());
    assert(flagged_fields_of(a, components_empty) =~= if bits & ID_BIT != 0 {
        fa
    } else {
        Seq::empty()
    }) by {
        if bits & ID_BIT != 0 {
            lemma_fields_push(e, Flags { bits: ID_BIT }, components_empty);
            assert(e.push(Flags { bits: ID_BIT }) =~= a);
        }
    }
    assert(flagged_fields_of(a + b, components_empty) =~= flagged_fields_of(a, components_empty)
        + if bits & POS_BIT != 0 {
        fb
    } else {
        Seq::empty()
    }) by {
        if bits & POS_BIT != 0 {
            lemma_fields_push(a, Flags { bits: POS_BIT }, components_empty);
            assert(a.push(Flags { bits: POS_BIT }) =~= a + b);
        } else {
            assert(a + b =~= a);
        }
    }
    assert(flagged_fields_of(a + b + c, components_empty) =~= flagged_fields_of(
        a + b,
        components_empty,
    ) + if bits & COMPONENTS_BIT != 0 {
        fc
    } else {
        Seq::empty()
    }) by {
        if bits & COMPONENTS_BIT != 0 {
            lemma_fields_push(a + b, Flags { bits: COMPONENTS_BIT }, components_empty);
            assert((a + b).push(Flags { bits: COMPONENTS_BIT }) =~= a + b + c);
        } else {
            assert(a + b + c =~= a + b);
        }
    }
    assert(flagged_fields_of(flag_seq(bits), components_empty) =~= flagged_fields(
        bits,
        components_empty,
    ));
}

impl Field {
    /// The field that a serialized key names; any other key is a field of
    /// the data's own.
    pub fn from_key(key: &str) -> (r: Field)
        ensures
            key@ == "id"@ ==> r == Field::Id,
            key@ != "id"@ && key@ == "components"@ ==> r == Field::Components,
            key@ != "id"@ && key@ != "components"@ && key@ == "x"@ ==> r == Field::X,
            key@ != "id"@ && key@ != "components"@ && key@ != "x"@ && key@ == "y"@ ==> r
                == Field::Y,
            key@ != "id"@ && key@ != "components"@ && key@ != "x"@ && key@ != "y"@ && key@
                == "z"@ ==> r == Field::Z,
            key@ != "id"@ && key@ != "components"@ && key@ != "x"@ && key@ != "y"@ && key@
                != "z"@ ==> (r matches Field::Other(s) && s@ == key@),
    {
        if str_eq(key, "id") {
            Field::Id
        } else if str_eq(key, "components") {
            Field::Components
        } else if str_eq(key, "x") {
            Field::X
        } else if str_eq(key, "y") {
            Field::Y
        } else if str_eq(key, "z") {
            Field::Z
        } else {
            Field::Other(key.to_owned())
        }
    }

    /// The serialized key of this field; a field of the data's own is
    /// written by the data, not through this.
    pub fn key(&self) -> (r: &'static str)
        requires
            !(self is Other),
        ensures
            self is Id ==> r@ == "id"@,
            self is Components ==> r@ == "components"@,
            self is X ==> r@ == "x"@,
            self is Y ==> r@ == "y"@,
            self is Z ==> r@ == "z"@,
    {
        match self {
            Field::Id => "id",
            Field::Components => "components",
            Field::X => "x",
            Field::Y => "y",
            Field::Z => "z",
            Field::Other(_) => "",
        }
    }
}

/// What reading a block entity does with the value of a field.
#[derive(Debug, Clone, Copy, PartialEq, Eq, Structural)]
pub enum FieldAction {
    /// Reads the registration identifier.
    ReadId,
    /// Reads the component map.
    ReadComponents,
    /// Skips the value: the position is known before reading.
    Skip,
    /// Keeps the value for the block entity's own data.
    Collect,
}

impl Field {
    /// What reading a block entity does with the value of this field.
    pub fn action(&self) -> (r: FieldAction)
        ensures
            self is Id ==> r == FieldAction::ReadId,
            self is Components ==> r == FieldAction::ReadComponents,
            (self is X || self is Y || self is Z) ==> r == FieldAction::Skip,
            self is Other ==> r == FieldAction::Collect,
    {
        match self {
            Field::Id => FieldAction::ReadId,
            Field::Components => FieldAction::ReadComponents,
            Field::X | Field::Y | Field::Z => FieldAction::Skip,
            Field::Other(_) => FieldAction::Collect,
        }
    }
}

/// Errors of reading a block entity.
#[derive(Debug, Clone, Copy, PartialEq, Eq, Structural)]
pub enum ReadError {
    /// No field gave the registration identifier.
    MissingId,
    /// Two fields gave the registration identifier.
    DuplicateId,
    /// No block entity type is registered under the identifier.
    UnknownType,
    /// The block entity type made no block entity for the state.
    CreateFailed,
}

/// The fields read so far of a block entity whose position and state are
/// known: the identifier, the component map, and the fields of its own data.
pub struct SeedFields<'a, I, V> {
    /// The registration identifier, once read; a later one replaces it.
    pub id: Option<I>,
    /// The component map, once read; a later one replaces it.
    pub components: Option<ComponentMap<'a>>,
    /// The fields of the block entity's own data, in the order read.
    pub collected: Vec<(String, V)>,
}

impl<'a, I, V> SeedFields<'a, I, V> {
    /// Nothing read yet.
    pub fn new() -> (r: Self)
        ensures
            r.id is None,
            r.components is None,
            r.collected@.len() == 0,
    {
        SeedFields { id: None, components: None, collected: Vec::new() }
    }

    /// Keeps a field of the block entity's own data.
    pub fn collect(&mut self, key: String, value: V)
        ensures
            final(self).collected@ == old(self).collected@.push((key, value)),
            final(self).id == old(self).id,
            final(self).components == old(self).components,
    {
        self.collected.push((key, value));
    }

    /// The identifier, the component map (the empty map when none was read)
    /// and the collected fields; reading fails when no identifier was read.
    pub fn finish(self) -> (r: Result<(I, ComponentMap<'a>, Vec<(String, V)>), ReadError>)
        ensures
            self.id is None ==> r matches Err(ReadError::MissingId),
            self.id is Some ==> r is Ok && r->Ok_0.0 == self.id->0 && r->Ok_0.2@
                == self.collected@ && (self.components is Some ==> r->Ok_0.1
                == self.components->0) && (self.components is None ==> r->Ok_0.1.is_empty_map()
                && r->Ok_0.1@ == Map::<u64, u64>::empty() && r->Ok_0.1.wf()),
    {
        match self.id {
            None => Err(ReadError::MissingId),
            Some(id) => {
                let components = match self.components {
                    Some(c) => c,
                    None => ComponentMap::empty(),
                };
                Ok((id, components, self.collected))
            },
        }
    }
}

/// The value that marks a block entity to be made by its block's own
/// constructor instead of by a registered type.
pub const DUMMY: &'static str = "DUMMY";

/// Whether a serialized identifier is the dummy value.
pub fn is_dummy(s: &str) -> (r: bool)
    ensures
        r == (s@ == DUMMY@),
{
    str_eq(s, DUMMY)
}

/// The value of the identifier field of a block entity read from NBT.
#[derive(Debug, Clone, PartialEq, Eq)]
pub enum IdValue<I> {
    /// The dummy value.
    Dummy,
    /// A registration identifier.
    Value(I),
}

/// What reading a block entity from NBT makes.
#[derive(Debug, Clone, PartialEq, Eq)]
pub enum NbtOutcome<I, V> {
    /// The block's own constructor makes the block entity, if it has one.
    Dummy,
    /// The type registered under the identifier makes the block entity,
    /// whose data is then updated from the collected fields.
    Create(I, Vec<(String, V)>),
}

/// The fields read so far of a block entity from NBT.
pub struct NbtFields<I, V> {
    /// The registration identifier, once read.
    pub id: Option<I>,
    /// Whether the identifier read is the dummy value.
    pub is_dummy: bool,
    /// Whether the dummy value is taken as such.
    pub respect_dummy: bool,
    /// The other fields, in the order read.
    pub collected: Vec<(String, V)>,
}

impl<I, V> NbtFields<I, V> {
    /// Nothing read yet.
    pub fn new(respect_dummy: bool) -> (r: Self)
        ensures
            r.id is None,
            !r.is_dummy,
            r.respect_dummy == respect_dummy,
            r.collected@.len() == 0,
    {
        NbtFields { id: None, is_dummy: false, respect_dummy, collected: Vec::new() }
    }

    /// Reads the identifier field. A second identifier is an error, unless
    /// the first was the dummy value. The dummy value is read only where it
    /// is respected.
    pub fn visit_id(&mut self, value: IdValue<I>) -> (r: Result<(), ReadError>)
        requires
            value is Dummy ==> old(self).respect_dummy,
        ensures
            old(self).id is Some ==> (r matches Err(ReadError::DuplicateId)) && final(self).id
                == old(self).id && final(self).is_dummy == old(self).is_dummy,
            old(self).id is None ==> r is Ok && match value {
                IdValue::Dummy => final(self).is_dummy && final(self).id is None,
                IdValue::Value(i) => final(self).id == Some(i) && final(self).is_dummy
                    == old(self).is_dummy,
            },
            final(self).respect_dummy == old(self).respect_dummy,
            final(self).collected == old(self).collected,
    {
        if self.id.is_some() {
            return Err(ReadError::DuplicateId);
        }
        match value {
            IdValue::Dummy => {
                self.is_dummy = true;
            },
            IdValue::Value(i) => {
                self.id = Some(i);
            },
        }
        Ok(())
    }

    /// Keeps a field other than the identifier.
    pub fn collect(&mut self, key: String, value: V)
        ensures
            final(self).collected@ == old(self).collected@.push((key, value)),
            final(self).id == old(self).id,
            final(self).is_dummy == old(self).is_dummy,
            final(self).respect_dummy == old(self).respect_dummy,
    {
        self.collected.push((key, value));
    }

    /// What the fields read make: the block's own constructor once the
    /// dummy value was read; else the type registered under the identifier,
    /// which must have been read.
    pub fn finish(self) -> (r: Result<NbtOutcome<I, V>, ReadError>)
        ensures
            self.is_dummy ==> r matches Ok(NbtOutcome::Dummy),
            !self.is_dummy && self.id is None ==> r matches Err(ReadError::MissingId),
            !self.is_dummy && self.id is Some ==> (r matches Ok(NbtOutcome::Create(i, c)) && i
                == self.id->0 && c@ == self.collected@),
    {
        if self.is_dummy {
            return Ok(NbtOutcome::Dummy);
        }
        match self.id {
            None => Err(ReadError::MissingId),
            Some(i) => Ok(NbtOutcome::Create(i, self.collected)),
        }
    }
}

/// Access to the components of a block entity: reading a component records
/// its type as read.
pub struct ComponentsAccess<'env, 'a> {
    set: AHashSet<u64>,
    map: &'env ComponentMap<'a>,
}

impl<'env, 'a> ComponentsAccess<'env, 'a> {
    /// The types of the components read so far.
    pub closed spec fn accessed(&self) -> Set<u64> {
        u64_set_contents(self.set)
    }

    /// The components that can be read.
    pub closed spec fn map_view(&self) -> Map<u64, u64> {
        self.map@
    }

    /// Gets the component of the given type, and records the type as read.
    pub fn get(&mut self, ty: ErasedComponentType) -> (r: Option<u64>)
        ensures
            r == (if old(self).map_view().contains_key(ty.id) {
                Some(old(self).map_view()[ty.id])
            } else {
                None
            }),
            final(self).accessed() == old(self).accessed().insert(ty.id),
            final(self).map_view() == old(self).map_view(),
    {
        u64_set_insert(&mut self.set, ty.id);
        self.map.get_raw(ty.id)
    }
}

/// The data of a block entity, as its type defines it.
pub trait Data<'a> {
    /// Reads the components this data keeps in itself. The components it
    /// reads are then left out of the block entity's own component map.
    fn read_components(&mut self, accessor: &mut ComponentsAccess<'_, 'a>)
        ensures
            final(accessor).map_view() == old(accessor).map_view(),
            old(accessor).accessed().subset_of(final(accessor).accessed()),
    {
    }

    /// The components this data keeps in itself, which it inserts; none
    /// unless the data says otherwise.
    open spec fn kept_components(&self) -> Map<u64, u64> {
        Map::empty()
    }

    /// Inserts the components this data keeps in itself: the builder then
    /// holds them, over what it held.
    fn insert_components(&self, builder: &mut Builder)
        requires
            old(builder).wf(),
        ensures
            final(builder).wf(),
            final(builder)@ == old(builder)@.union_prefer_right(self.kept_components()),
    ;
}

/// The changes left after dropping those of the given types.
pub open spec fn changes_without(c: Map<u64, Option<u64>>, s: Set<u64>) -> Map<u64, Option<u64>> {
    c.restrict(c.dom().filter(|k: u64| !s.contains(k)))
}

/// An object holding extra data in a block, with the raw id of its type,
/// its position, the raw id of the block state it was made for, and its
/// components.
pub struct RawBlockEntity<'a, T> {
    ty: u64,
    pos: BlockPos,
    removed: bool,
    cached_state: u64,
    components: ComponentMap<'a>,
    data: T,
}

impl<'a, T> RawBlockEntity<'a, T> {
    /// The raw id of the type.
    pub closed spec fn ty_spec(&self) -> u64 {
        self.ty
    }

    /// The position.
    pub closed spec fn pos_spec(&self) -> BlockPos {
        self.pos
    }

    /// Whether the block entity is marked removed.
    pub closed spec fn removed_spec(&self) -> bool {
        self.removed
    }

    /// The raw id of the block state the block entity was made for.
    pub closed spec fn state_spec(&self) -> u64 {
        self.cached_state
    }

    /// The components of the block entity.
    pub closed spec fn components_spec(&self) -> ComponentMap<'a> {
        self.components
    }

    /// The data of the block entity.
    pub closed spec fn data_spec(&self) -> T {
        self.data
    }

    /// Creates a new block entity, not removed and with no components.
    pub fn new(ty: u64, pos: BlockPos, state: u64, data: T) -> (r: Self)
        ensures
            r.ty_spec() == ty,
            r.pos_spec() == pos,
            r.state_spec() == state,
            !r.removed_spec(),
            r.components_spec().is_empty_map(),
            r.components_spec()@ == Map::<u64, u64>::empty(),
            r.components_spec().wf(),
            r.data_spec() == data,
    {
        RawBlockEntity {
            ty,
            pos,
            removed: false,
            cached_state: state,
            components: ComponentMap::empty(),
            data,
        }
    }

    /// Returns the raw id of the type of this block entity.
    pub fn ty(&self) -> (r: u64)
        ensures
            r == self.ty_spec(),
    {
        self.ty
    }

    /// Returns the raw id of the block state this block entity was made for.
    pub fn cached_state(&self) -> (r: u64)
        ensures
            r == self.state_spec(),
    {
        self.cached_state
    }

    /// Returns the immutable inner data of this block entity.
    pub fn data(&self) -> (r: &T)
        ensures
            *r == self.data_spec(),
    {
        &self.data
    }

    /// Returns the mutable inner data of this block entity.
    pub fn data_mut(&mut self) -> (r: &mut T)
        ensures
            *r == old(self).data_spec(),
            final(self).data_spec() == *final(r),
            final(self).ty_spec() == old(self).ty_spec(),
            final(self).pos_spec() == old(self).pos_spec(),
            final(self).removed_spec() == old(self).removed_spec(),
            final(self).state_spec() == old(self).state_spec(),
            final(self).components_spec() == old(self).components_spec(),
    {
        &mut self.data
    }

    /// Returns the position of this block entity.
    pub fn pos(&self) -> (r: BlockPos)
        ensures
            r == self.pos_spec(),
    {
        self.pos
    }

    /// Returns the components of this block entity.
    pub fn components(&self) -> (r: &ComponentMap<'a>)
        ensures
            *r == self.components_spec(),
    {
        &self.components
    }

    /// Returns the mutable components of this block entity.
    pub fn components_mut(&mut self) -> (r: &mut ComponentMap<'a>)
        ensures
            *r == old(self).components_spec(),
            final(self).components_spec() == *final(r),
            final(self).ty_spec() == old(self).ty_spec(),
            final(self).pos_spec() == old(self).pos_spec(),
            final(self).removed_spec() == old(self).removed_spec(),
            final(self).state_spec() == old(self).state_spec(),
            final(self).data_spec() == old(self).data_spec(),
    {
        &mut self.components
    }

    /// Cancels the removal of this block entity.
    pub fn cancel_removal(&mut self)
        ensures
            !final(self).removed_spec(),
            final(self).ty_spec() == old(self).ty_spec(),
            final(self).pos_spec() == old(self).pos_spec(),
            final(self).state_spec() == old(self).state_spec(),
            final(self).components_spec() == old(self).components_spec(),
            final(self).data_spec() == old(self).data_spec(),
    {
        self.removed = false;
    }

    /// Marks this block entity as removed.
    pub fn mark_removed(&mut self)
        ensures
            final(self).removed_spec(),
            final(self).ty_spec() == old(self).ty_spec(),
            final(self).pos_spec() == old(self).pos_spec(),
            final(self).state_spec() == old(self).state_spec(),
            final(self).components_spec() == old(self).components_spec(),
            final(self).data_spec() == old(self).data_spec(),
    {
        self.removed = true;
    }

    /// Returns whether this block entity is marked as removed.
    pub fn is_removed(&self) -> (r: bool)
        ensures
            r == self.removed_spec(),
    {
        self.removed
    }
}

impl<'a, T> RawBlockEntity<'a, T> {
    /// Makes the block entity that a serialized block entity, read at a
    /// known position and state, gives: the identifier read is looked up
    /// among the registered block entity types, the type found builds the
    /// block entity at the position and state, and the block entity takes
    /// the component map read, the empty map when none was. The fields of
    /// its own data come back with it, for its data to be updated from.
    ///
    /// Fails when no identifier was read, when no type is registered under
    /// it, and when the type builds no block entity.
    pub fn from_seed<I, V, L, B>(
        fields: SeedFields<'a, I, V>,
        pos: BlockPos,
        state: u64,
        lookup: L,
        build: B,
    ) -> (r: Result<(RawBlockEntity<'a, T>, Vec<(String, V)>), ReadError>) where
        L: Fn(I) -> Option<u64>,
        B: Fn(u64, BlockPos, u64) -> Option<RawBlockEntity<'a, T>>,

        requires
            forall|i: I| #[trigger] lookup.requires((i,)),
            forall|t: u64, p: BlockPos, s: u64| #[trigger] build.requires((t, p, s)),
        ensures
            fields.id is None ==> r == Err::<(RawBlockEntity<'a, T>, Vec<(String, V)>), ReadError>(
                ReadError::MissingId,
            ),
            fields.id matches Some(i) ==> {
                &&& r matches Err(e) ==> {
                    ||| e == ReadError::UnknownType && lookup.ensures((i,), None::<u64>)
                    ||| e == ReadError::CreateFailed && exists|t: u64|
                        #[trigger] lookup.ensures((i,), Some(t)) && build.ensures(
                            (t, pos, state),
                            None::<RawBlockEntity<'a, T>>,
                        )
                }
                &&& r matches Ok((be, rest)) ==> {
                    &&& rest@ == fields.collected@
                    &&& fields.components matches Some(c) ==> be.components_spec() == c
                    &&& fields.components is None ==> be.components_spec().is_empty_map()
                        && be.components_spec()@ == Map::<u64, u64>::empty()
                        && be.components_spec().wf()
                    &&& exists|t: u64, b: RawBlockEntity<'a, T>|
                        #![trigger lookup.ensures((i,), Some(t)), build.ensures((t, pos, state), Some(b))]
                        {
                            &&& lookup.ensures((i,), Some(t))
                            &&& build.ensures((t, pos, state), Some(b))
                            &&& be.ty_spec() == b.ty_spec()
                            &&& be.pos_spec() == b.pos_spec()
                            &&& be.state_spec() == b.state_spec()
                            &&& be.removed_spec() == b.removed_spec()
                            &&& be.data_spec() == b.data_spec()
                        }
                }
            },
    {
        let (id, components, collected) = match fields.finish() {
            Ok(x) => x,
            Err(e) => {
                return Err(e);
            },
        };
        let t = match lookup(id) {
            Some(t) => t,
            None => {
                return Err(ReadError::UnknownType);
            },
        };
        let mut be = match build(t, pos, state) {
            Some(b) => b,
            None => {
                return Err(ReadError::CreateFailed);
            },
        };
        let ghost b = be;
        be.components = components;
        proof {
            assert(lookup.ensures((id,), Some(t)));
            assert(build.ensures((t, pos, state), Some(b)));
        }
        Ok((be, collected))
    }

    /// Makes the block entity that a block entity read from NBT gives. The
    /// dummy value leaves it to the block's own constructor at the
    /// position, which `constructor` calls, if the block has one. Otherwise
    /// the identifier read is looked up among the registered block entity
    /// types, and the type found builds the block entity, if it makes one,
    /// at the position and state; the other fields come back with it, for
    /// its data to be updated from.
    ///
    /// Fails when no identifier was read and when no type is registered
    /// under it.
    pub fn from_nbt<I, V, L, B, C>(
        fields: NbtFields<I, V>,
        pos: BlockPos,
        state: u64,
        lookup: L,
        build: B,
        constructor: C,
    ) -> (r: Result<(Option<RawBlockEntity<'a, T>>, Vec<(String, V)>), ReadError>) where
        L: Fn(I) -> Option<u64>,
        B: Fn(u64, BlockPos, u64) -> Option<RawBlockEntity<'a, T>>,
        C: Fn(BlockPos) -> Option<RawBlockEntity<'a, T>>,

        requires
            forall|i: I| #[trigger] lookup.requires((i,)),
            forall|t: u64, p: BlockPos, s: u64| #[trigger] build.requires((t, p, s)),
            forall|p: BlockPos| #[trigger] constructor.requires((p,)),
        ensures
            fields.is_dummy ==> (r matches Ok((b, rest)) && constructor.ensures((pos,), b)
                && rest@.len() == 0),
            !fields.is_dummy && fields.id is None ==> r == Err::<
                (Option<RawBlockEntity<'a, T>>, Vec<(String, V)>),
                ReadError,
            >(ReadError::MissingId),
            !fields.is_dummy ==> (fields.id matches Some(i) ==> {
                &&& r matches Err(e) ==> e == ReadError::UnknownType && lookup.ensures(
                    (i,),
                    None::<u64>,
                )
                &&& r matches Ok((b, rest)) ==> rest@ == fields.collected@ && exists|t: u64|
                    #[trigger] lookup.ensures((i,), Some(t)) && build.ensures((t, pos, state), b)
            }),
    {
        match fields.finish() {
            Ok(NbtOutcome::Dummy) => Ok((constructor(pos), Vec::new())),
            Ok(NbtOutcome::Create(id, collected)) => {
                let t = match lookup(id) {
                    Some(t) => t,
                    None => {
                        return Err(ReadError::UnknownType);
                    },
                };
                let b = build(t, pos, state);
                proof {
                    assert(lookup.ensures((id,), Some(t)));
                }
                Ok((b, collected))
            },
            Err(e) => Err(e),
        }
    }
}

impl<'a, T: Data<'a>> RawBlockEntity<'a, T> {
    /// Reads the components of this block entity: the default components
    /// patched by the changes. The data reads the components it keeps in
    /// itself; the block entity then keeps the components that the changes
    /// set, but for those of the types the data read and of the block
    /// entity data type.
    pub fn read_components(
        &mut self,
        default: &'a ComponentMap<'a>,
        changes: ComponentChanges,
        block_entity_data: ErasedComponentType,
    )
        requires
            default.wf(),
            changes.wf(),
            default.len_spec() + changes@.dom().len() <= isize::MAX,
        ensures
            exists|s: Set<u64>|
                s.contains(block_entity_data.id) && final(self).components_spec()@ == added(
                    #[trigger] changes_without(changes@, s),
                ),
            final(self).components_spec().wf(),
            !final(self).components_spec().is_patched(),
            final(self).ty_spec() == old(self).ty_spec(),
            final(self).pos_spec() == old(self).pos_spec(),
            final(self).removed_spec() == old(self).removed_spec(),
            final(self).state_spec() == old(self).state_spec(),
    {
        let ghost c = changes@;
        let mut set = u64_set_new();
        u64_set_insert(&mut set, block_entity_data.id);
        let map = ComponentMap::with_changes(default, changes);
        let mut access = ComponentsAccess { set, map: &map };
        self.data.read_components(&mut access);
        let accessed = access.set;
        let ghost s = u64_set_contents(accessed);
        let patched_changes = map.changes();
        match patched_changes {
            Some(pc) => {
                let acc = &accessed;
                let unread = (|ty: ErasedComponentType| -> (b: bool)
                    ensures
                        b == !u64_set_contents(*acc).contains(ty.id),
                    { !u64_set_contains(acc, ty.id) });
                let kept = pc.retain(unread);
                proof {
                    assert(kept@ =~= changes_without(c, s)) by {
                        assert forall|k: u64| #[trigger] kept@.contains_key(k) implies changes_without(
                            c,
                            s,
                        ).contains_key(k) by {}
                        assert forall|k: u64| #[trigger]
                            changes_without(c, s).contains_key(k) implies kept@.contains_key(k) by {}
                    }
                }
                let (added_map, _) = kept.into_added_removed_pair();
                self.components = added_map;
            },
            None => {
                proof {
                    assert(false);
                }
            },
        }
    }

    /// Creates the components of this block entity: its own components,
    /// then those its data inserts, which replace its own of the same type.
    pub fn create_components(&self) -> (r: ComponentMap<'a>)
        requires
            self.components_spec().wf(),
        ensures
            r.wf(),
            r@ == self.components_spec()@.union_prefer_right(self.data_spec().kept_components()),
            forall|k: u64| #[trigger]
                r@.contains_key(k) <==> self.components_spec()@.contains_key(k)
                    || self.data_spec().kept_components().contains_key(k),
            forall|k: u64|
                #![trigger self.components_spec()@[k]]
                self.components_spec()@.contains_key(k)
                    && !self.data_spec().kept_components().contains_key(k) ==> r@[k]
                    == self.components_spec()@[k],
            forall|k: u64|
                #![trigger self.data_spec().kept_components()[k]]
                self.data_spec().kept_components().contains_key(k) ==> r@[k]
                    == self.data_spec().kept_components()[k],
    {
        let mut builder = ComponentMap::builder();
        let entries = self.components.iter();
        let mut i: usize = 0;
        while i < entries.len()
            invariant
                i <= entries.len(),
                builder.wf(),
                self.components.lists(entries@),
                forall|j: int| 0 <= j < i ==> builder@.contains_key(#[trigger] entries@[j].0.id),
                forall|k: u64| #[trigger] builder@.contains_key(k) ==> self.components@.contains_key(k)
                    && builder@[k] == self.components@[k],
            decreases entries.len() - i,
        {
            let (t, v) = entries[i];
            builder.insert(t, v);
            i = i + 1;
        }
        proof {
            assert forall|k: u64| #[trigger] self.components@.contains_key(k) implies builder@.contains_key(
                k,
            ) by {
                let j = choose|j: int| 0 <= j < entries@.len() && entries@[j].0.id == k;
            }
            assert(builder@ =~= self.components@);
        }
        self.data.insert_components(&mut builder);
        builder.build()
    }
}

/// Marker type for block entity constructors to make them differ from other
/// functions.
#[derive(Debug, Clone, Copy, Default)]
pub struct BlockEntityConstructorMarker;

} // verus!
