//! Items and stacks of items.
//!
//! An item is known by the raw id it is registered under, whether it is the
//! registry's default entry (the item of empty stacks), and the components
//! its settings give every stack of it.

use vstd::prelude::*;

use crate::block_entity::str_eq;
use crate::component::changes::ComponentChanges;
use crate::component::packet::{
    decode_fails, decodes_to, lemma_changes_packet_roundtrip, lemma_window, packet_form, reads_back,
    resolves_types, value_error,
};
use crate::component::{patched, ComponentMap, ErasedComponentType};
use crate::packet::{be_bytes, lemma_be_bytes_len, Decode, Encode, PacketError};
use crate::varint::{
    lemma_var_roundtrip, read_var, var_bytes, var_read, var_runs_out, write_var, VarIntError, VarRead,
};
use crate::context::ProvideIdTy;
use crate::local_cx::ProvideLocalCxTy;

verus! {

/// The max item count of an item stack.
pub const MAX_STACK_COUNT: u32 = 64u32;

/// Settings of an item.
pub trait ItemSettings<'a> {
    /// Returns components of the item.
    fn components(&self) -> &ComponentMap<'a>;
}

/// Provides settings type for items.
pub trait ProvideSettingsTy: ProvideIdTy {
    /// Settings type of an item.
    type Settings<'a>: ItemSettings<'a>;
}

/// Global context used for item stacks.
pub trait ItemStackCx: ProvideIdTy + ProvideSettingsTy + ProvideLocalCxTy {}

impl<T> ItemStackCx for T where T: ProvideIdTy + ProvideSettingsTy + ProvideLocalCxTy {}

/// Text formattings: colors and styles.
#[derive(Debug, Clone, Copy, PartialEq, Eq, Hash, Structural)]
pub enum Formatting {
    /// Black.
    Black,
    /// Dark blue.
    DarkBlue,
    /// Dark green.
    DarkGreen,
    /// Dark aqua.
    DarkAqua,
    /// Dark red.
    DarkRed,
    /// Dark purple.
    DarkPurple,
    /// Gold.
    Gold,
    /// Gray.
    Gray,
    /// Dark gray.
    DarkGray,
    /// Blue.
    Blue,
    /// Green.
    Green,
    /// Aqua.
    Aqua,
    /// Red.
    Red,
    /// Light purple.
    LightPurple,
    /// Yellow.
    Yellow,
    /// White.
    White,
    /// Obfuscated.
    Obfuscated,
    /// Bold.
    Bold,
    /// Strikethrough.
    Strikethrough,
    /// Underline.
    Underline,
    /// Italic.
    Italic,
    /// Reset.
    Reset,
}

/// Rarity of an item.
#[derive(Debug, PartialEq, Eq, PartialOrd, Ord, Hash, Clone, Copy, Structural)]
pub enum Rarity {
    /// Common rarity.
    Common,
    /// Uncommon rarity.
    Uncommon,
    /// Rare rarity.
    Rare,
    /// Epic rarity.
    Epic,
}

impl Default for Rarity {
    /// Common rarity.
    fn default() -> (r: Rarity)
        ensures
            r == Rarity::Common,
    {
        Rarity::Common
    }
}

/// The formatting an item's name takes for its rarity.
pub open spec fn rarity_formatting(r: Rarity) -> Formatting {
    match r {
        Rarity::Common => Formatting::White,
        Rarity::Uncommon => Formatting::Yellow,
        Rarity::Rare => Formatting::Aqua,
        Rarity::Epic => Formatting::LightPurple,
    }
}

impl From<Rarity> for Formatting {
    /// The formatting an item's name takes for its rarity.
    fn from(value: Rarity) -> (r: Formatting)
        ensures
            r == rarity_formatting(value),
    {
        match value {
            Rarity::Common => Formatting::White,
            Rarity::Uncommon => Formatting::Yellow,
            Rarity::Rare => Formatting::Aqua,
            Rarity::Epic => Formatting::LightPurple,
        }
    }
}

impl vstd::std_specs::convert::FromSpecImpl<Rarity> for Formatting {
    open spec fn obeys_from_spec() -> bool {
        true
    }

    open spec fn from_spec(v: Rarity) -> Formatting {
        rarity_formatting(v)
    }
}

/// An item usable by players and other entities, as registered.
#[derive(Clone, Copy)]
pub struct Item<'r> {
    raw_id: u64,
    is_default: bool,
    components: &'r ComponentMap<'r>,
}

impl<'r> Item<'r> {
    /// The components of an item make a well-formed map whose length fits an
    /// `isize`, so that stacks can patch it.
    #[verifier::type_invariant]
    closed spec fn inv(self) -> bool {
        &&& self.components.wf()
        &&& self.components.len_spec() <= isize::MAX
    }

    /// The raw id the item is registered under.
    pub closed spec fn raw_id_spec(&self) -> u64 {
        self.raw_id
    }

    /// Whether the item is the registry's default entry.
    pub closed spec fn is_default_spec(&self) -> bool {
        self.is_default
    }

    /// The components its settings give every stack of the item.
    pub closed spec fn components_spec(&self) -> &'r ComponentMap<'r> {
        self.components
    }

    /// An item registered under the raw id, with the components of its
    /// settings.
    pub fn new(raw_id: u64, is_default: bool, components: &'r ComponentMap<'r>) -> (r: Item<'r>)
        requires
            components.wf(),
            components.len_spec() <= isize::MAX,
        ensures
            r.raw_id_spec() == raw_id,
            r.is_default_spec() == is_default,
            r.components_spec() == components,
    {
        Item { raw_id, is_default, components }
    }

    /// Returns the raw id the item is registered under.
    pub fn raw_id(&self) -> (r: u64)
        ensures
            r == self.raw_id_spec(),
    {
        self.raw_id
    }

    /// Returns whether the item is the registry's default entry.
    pub fn is_default(&self) -> (r: bool)
        ensures
            r == self.is_default_spec(),
    {
        self.is_default
    }

    /// Returns the components its settings give every stack of the item.
    pub fn components(&self) -> (r: &'r ComponentMap<'r>)
        ensures
            r == self.components_spec(),
            r.wf(),
            r.len_spec() <= isize::MAX,
    {
        proof {
            use_type_invariant(self);
        }
        self.components
    }
}

/// A stack of items: an item, a count, and components patched over the
/// item's own.
pub struct ItemStack<'r> {
    item: Item<'r>,
    count: u32,
    components: ComponentMap<'r>,
}

impl<'r> ItemStack<'r> {
    /// The item of the stack.
    pub closed spec fn item_spec(&self) -> Item<'r> {
        self.item
    }

    /// The count of the stack.
    pub closed spec fn count_spec(&self) -> u32 {
        self.count
    }

    /// The components of the stack.
    pub closed spec fn components_spec(&self) -> ComponentMap<'r> {
        self.components
    }

    /// Creates a new item stack with the given item and count, with no
    /// changes over the item's components.
    pub fn new(item: Item<'r>, count: u32) -> (r: Self)
        ensures
            r.item_spec() == item,
            r.count_spec() == count,
            r.components_spec().is_patched(),
            r.components_spec()@ == item.components_spec()@,
            r.components_spec().base_contents() == item.components_spec()@,
            r.components_spec().changes_contents() == Map::<u64, Option<u64>>::empty(),
            r.components_spec().wf(),
    {
        ItemStack::with_component(item, count, ComponentMap::new(item.components()))
    }

    /// Creates a new item stack with the given item, count, and components.
    pub fn with_component(item: Item<'r>, count: u32, components: ComponentMap<'r>) -> (r: Self)
        ensures
            r.item_spec() == item,
            r.count_spec() == count,
            r.components_spec() == components,
    {
        ItemStack { item, count, components }
    }

    /// Creates an empty item stack: none of the registry's default item.
    pub fn empty(default_item: Item<'r>) -> (r: Self)
        requires
            default_item.is_default_spec(),
        ensures
            r.item_spec() == default_item,
            r.count_spec() == 0,
            r.components_spec()@ == default_item.components_spec()@,
            r.is_empty_spec(),
    {
        ItemStack::new(default_item, 0)
    }

    /// Whether the stack is empty: it holds nothing, or holds the default
    /// item.
    pub open spec fn is_empty_spec(&self) -> bool {
        self.count_spec() == 0 || self.item_spec().is_default_spec()
    }

    /// Returns whether the stack is empty.
    pub fn is_empty(&self) -> (r: bool)
        ensures
            r == self.is_empty_spec(),
    {
        self.count == 0 || self.item.is_default()
    }

    /// Returns the item of the stack.
    pub fn item(&self) -> (r: Item<'r>)
        ensures
            r == self.item_spec(),
    {
        self.item
    }

    /// Returns the count of the stack.
    pub fn count(&self) -> (r: u32)
        ensures
            r == self.count_spec(),
    {
        self.count
    }

    /// Returns the components of the stack.
    pub fn components(&self) -> (r: &ComponentMap<'r>)
        ensures
            *r == self.components_spec(),
    {
        &self.components
    }

    /// Returns a mutable reference to the components of the stack.
    pub fn components_mut(&mut self) -> (r: &mut ComponentMap<'r>)
        ensures
            *r == old(self).components_spec(),
            final(self).components_spec() == *final(r),
            final(self).item_spec() == old(self).item_spec(),
            final(self).count_spec() == old(self).count_spec(),
    {
        &mut self.components
    }

    /// Sets the count of the stack.
    pub fn set_count(&mut self, count: u32)
        ensures
            final(self).count_spec() == count,
            final(self).item_spec() == old(self).item_spec(),
            final(self).components_spec() == old(self).components_spec(),
    {
        self.count = count;
    }

    /// The number of fields serializing a stack announces: the three it
    /// writes, its item, its count and its components.
    pub fn serialized_field_count(&self) -> (r: usize)
        ensures
            r == 3,
    {
        3
    }

    /// The changes that serializing a stack writes as its components: those
    /// of its patched components.
    pub fn serialized_changes(&self) -> (r: Result<ComponentChanges, StackError>)
        requires
            self.components_spec().wf(),
        ensures
            self.components_spec().is_patched() ==> (r matches Ok(c) && c@
                == self.components_spec().changes_contents()),
            !self.components_spec().is_patched() ==> r matches Err(StackError::NotPatched),
    {
        match self.components.changes() {
            Some(c) => Ok(c),
            None => Err(StackError::NotPatched),
        }
    }
}

/// The head of the packet form of a stack that is not empty: its count as
/// a variable-length integer, its item as the raw id it is registered
/// under, a variable-length integer, then its count again in four bytes.
pub open spec fn stack_head_bytes(count: u32, raw_id: u64) -> Seq<u8> {
    var_bytes(count as nat) + var_bytes(raw_id as nat) + be_bytes(count as nat, 4)
}

impl<'r> ItemStack<'r> {
    /// Appends the packet form of the stack to the buffer: a count of zero
    /// for an empty stack; otherwise the head of the stack, then the
    /// changes of its components over its item's, their values encoded by
    /// `encode_value`.
    ///
    /// Fails, after the head, when the components are not patched, and with
    /// the error of `encode_value` when a value cannot be encoded.
    pub fn encode<F>(&self, buf: &mut Vec<u8>, encode_value: F) -> (r: Result<(), StackError>) where
        F: Fn(ErasedComponentType, u64) -> Result<Vec<u8>, PacketError>,

        requires
            self.components_spec().wf(),
            self.components_spec().is_patched()
                ==> self.components_spec().changes_contents().dom().len() <= u32::MAX,
            forall|t: ErasedComponentType, v: u64| #[trigger] encode_value.requires((t, v)),
        ensures
            self.is_empty_spec() ==> r is Ok && final(buf)@ == old(buf)@ + var_bytes(0),
            !self.is_empty_spec() ==> {
                let head = old(buf)@ + stack_head_bytes(
                    self.count_spec(),
                    self.item_spec().raw_id_spec(),
                );
                let m = self.components_spec();
                let tail = final(buf)@.subrange(head.len() as int, final(buf)@.len() as int);
                &&& head.len() <= final(buf)@.len()
                &&& final(buf)@.subrange(0, head.len() as int) == head
                &&& !m.is_patched() ==> r == Err::<(), StackError>(StackError::NotPatched)
                    && final(buf)@ == head
                &&& m.is_patched() && r is Ok ==> packet_form(
                    m.changes_contents(),
                    m.changes_flags(),
                    encode_value,
                    tail,
                )
                &&& m.is_patched() && r is Err ==> (r matches Err(StackError::Packet(e))
                    && value_error(
                    m.changes_contents(),
                    m.changes_flags(),
                    encode_value,
                    e,
                ))
                &&& m.is_patched() && (forall|
                    t: ErasedComponentType,
                    v: u64,
                    res: Result<Vec<u8>, PacketError>,
                | #[trigger] encode_value.ensures((t, v), res) ==> res is Ok) ==> r is Ok
            },
    {
        if self.is_empty() {
            write_var(buf, 0);
            return Ok(());
        }
        let ghost start = buf@;
        write_var(buf, self.count as u64);
        write_var(buf, self.item.raw_id());
        let _ = self.count.encode(buf);
        let ghost head = buf@;
        assert(head == start + stack_head_bytes(self.count, self.item.raw_id_spec()));
        match self.components.changes() {
            None => {
                assert(buf@.subrange(0, head.len() as int) =~= head);
                Err(StackError::NotPatched)
            },
            Some(c) => {
                let ghost m = self.components;
                let r = c.encode(buf, encode_value);
                proof {
                    assert forall|k: u64| c.transient_types().contains(k) == m.changes_flags().contains(
                        k,
                    ) by {
                        assert(c.flag_of(k) == m.changes_flags().contains(k));
                    }
                    assert(c.transient_types() =~= m.changes_flags());
                    assert(buf@.subrange(0, head.len() as int) =~= buf@.subrange(
                        0,
                        head.len() as int,
                    ).subrange(0, head.len() as int));
                }
                match r {
                    Ok(()) => Ok(()),
                    Err(e) => Err(StackError::Packet(e)),
                }
            },
        }
    }
}

impl<'r> ItemStack<'r> {
    /// Whether `s` is the stack of `item` and `count` whose components are
    /// the item's patched by the changes `c`.
    pub open spec fn patched_by(s: ItemStack<'r>, item: Item<'r>, count: nat, c: ComponentChanges) -> bool {
        let m = s.components_spec();
        &&& s.item_spec() == item
        &&& s.count_spec() == count
        &&& m.wf()
        &&& m.is_patched()
        &&& m@ == patched(item.components_spec()@, c@)
        &&& m.base_contents() == item.components_spec()@
        &&& m.changes_contents() == c@
        &&& forall|k: u64| #[trigger] c@.contains_key(k) ==> m.flag_of(k) == c.flag_of(k)
    }

    /// Reads a stack in its packet form from position `start` of the
    /// buffer and returns it with the position after it: a count of zero
    /// gives an empty stack of the default item; otherwise the item follows
    /// as its raw id, which `item_of` resolves, then the count again in four
    /// bytes, then the changes of the stack's components over the item's,
    /// read as [`ComponentChanges::decode`] reads them.
    ///
    /// Fails when the count cannot be read, when the item id runs out or is
    /// too large, when `item_of` knows no item of it, when fewer than four
    /// bytes follow the id, when the changes cannot be read, and when the
    /// item's components and the changes together are too many to count.
    pub fn decode<I, L, G>(
        buf: &[u8],
        start: usize,
        default_item: Item<'r>,
        item_of: I,
        lookup: L,
        decode_value: G,
    ) -> (r: Result<(ItemStack<'r>, usize), StackError>) where
        I: Fn(u64) -> Option<Item<'r>>,
        L: Fn(u64) -> Option<ErasedComponentType>,
        G: Fn(ErasedComponentType, &[u8], usize) -> Result<(u64, usize), PacketError>,

        requires
            start <= buf@.len(),
            default_item.is_default_spec(),
            forall|k: u64| #[trigger] item_of.requires((k,)),
            forall|k: u64| #[trigger] lookup.requires((k,)),
            forall|t: ErasedComponentType, b: &[u8], p: usize| #[trigger]
                decode_value.requires((t, b, p)),
            forall|t: ErasedComponentType, b: &[u8], p: usize, v: u64, n: usize| #[trigger]
                decode_value.ensures((t, b, p), Ok::<(u64, usize), PacketError>((v, n))) ==> p + n
                    <= b@.len(),
        ensures
            match var_read(buf@.subrange(start as int, buf@.len() as int), 32) {
                VarRead::Value { value: count, len: l1 } => {
                    let p = start + l1;
                    let rest = buf@.subrange(p, buf@.len() as int);
                    if count == 0 {
                        r matches Ok((s, n)) && n == p && s.item_spec() == default_item
                            && s.count_spec() == 0 && s.components_spec()@
                            == default_item.components_spec()@ && s.is_empty_spec()
                    } else {
                        match var_read(rest, 64) {
                            VarRead::RunsOut => r == Err::<(ItemStack<'r>, usize), StackError>(
                                StackError::Packet(PacketError::InvalidData),
                            ),
                            VarRead::TooLarge => r == Err::<(ItemStack<'r>, usize), StackError>(
                                StackError::Packet(PacketError::VarInt(VarIntError::TooLarge)),
                            ),
                            VarRead::Value { value: id, len: l2 } => {
                                let q = p + l2 + 4;
                                &&& r matches Ok((s, n)) ==> item_of.ensures(
                                    (id as u64,),
                                    Some(s.item_spec()),
                                ) && q <= buf@.len() && exists|c: ComponentChanges|
                                    #![trigger decodes_to(buf, q, lookup, decode_value, c, n as int)]
                                    decodes_to(buf, q, lookup, decode_value, c, n as int)
                                        && Self::patched_by(s, s.item_spec(), count, c)
                                &&& r matches Err(e) ==> {
                                    ||| item_of.ensures((id as u64,), None::<Item<'r>>) && e
                                        == StackError::Packet(PacketError::InvalidData)
                                    ||| exists|item: Item<'r>|
                                        #![trigger item_of.ensures((id as u64,), Some(item))]
                                        item_of.ensures((id as u64,), Some(item)) && {
                                            ||| q > buf@.len() && e == StackError::Packet(
                                                PacketError::InvalidData,
                                            )
                                            ||| q <= buf@.len() && (e matches StackError::Packet(pe)
                                                && decode_fails(buf, q, lookup, decode_value, pe))
                                            ||| e == StackError::Packet(PacketError::InvalidData)
                                                && exists|c: ComponentChanges, n: int|
                                                #![trigger decodes_to(buf, q, lookup, decode_value, c, n)]
                                                decodes_to(buf, q, lookup, decode_value, c, n)
                                                    && item.components_spec().len_spec()
                                                    + c@.dom().len() > isize::MAX
                                        }
                                }
                            },
                        }
                    }
                },
                _ => r == Err::<(ItemStack<'r>, usize), StackError>(
                    StackError::Packet(PacketError::InvalidData),
                ),
            },
    {
        let front = &buf[start..buf.len()];
        if var_runs_out(front, 32) {
            return Err(StackError::Packet(PacketError::InvalidData));
        }
        let (count, l1) = match read_var(front, 32) {
            Ok(x) => x,
            Err(_) => {
                return Err(StackError::Packet(PacketError::InvalidData));
            },
        };
        let p = start + l1;
        if count == 0 {
            return Ok((ItemStack::empty(default_item), p));
        }
        let rest = &buf[p..buf.len()];
        proof {
            assert(front@ == buf@.subrange(start as int, buf@.len() as int));
            assert(rest@ == buf@.subrange(p as int, buf@.len() as int));
        }
        if var_runs_out(rest, 64) {
            return Err(StackError::Packet(PacketError::InvalidData));
        }
        let (id, l2) = match read_var(rest, 64) {
            Ok(x) => x,
            Err(e) => {
                return Err(StackError::Packet(PacketError::VarInt(e)));
            },
        };
        let item = match item_of(id) {
            Some(item) => item,
            None => {
                return Err(StackError::Packet(PacketError::InvalidData));
            },
        };
        let after_id = p + l2;
        if buf.len() - after_id < 4 {
            return Err(StackError::Packet(PacketError::InvalidData));
        }
        let _ = u32::decode(&buf[after_id..buf.len()]);
        let q = after_id + 4;
        let (c, n) = match ComponentChanges::decode(buf, q, lookup, decode_value) {
            Ok(x) => x,
            Err(e) => {
                return Err(StackError::Packet(e));
            },
        };
        let base = item.components();
        let bl = base.len();
        let cl = c.len();
        if cl > (isize::MAX as usize) - bl {
            return Err(StackError::Packet(PacketError::InvalidData));
        }
        let components = ComponentMap::with_changes(base, c);
        let s = ItemStack::with_component(item, count as u32, components);
        proof {
            let ghost cn: nat = count as nat;
            assert(Self::patched_by(s, s.item_spec(), cn, c));
            assert(decodes_to(buf, q as int, lookup, decode_value, c, n as int));
            assert(item_of.ensures((id,), Some(s.item_spec())));
            let rr = Ok::<(ItemStack<'r>, usize), StackError>((s, n));
            assert(rr matches Ok((s2, n2)) && s2 == s && n2 == n);
        }
        Ok((s, n))
    }
}

/// Changes that change nothing have one packet form, whatever the
/// transient types and the value encoder: no component set, none removed.
/// So a stack patched over its item's components with no changes, as one
/// made from an item is, writes only its head and these two zeros.
pub proof fn lemma_no_changes_packet<F: Fn(ErasedComponentType, u64) -> Result<Vec<u8>, PacketError>>(
    transient: Set<u64>,
    encode_value: F,
    bytes: Seq<u8>,
)
    ensures
        packet_form(Map::<u64, Option<u64>>::empty(), transient, encode_value, bytes) <==> bytes
            == var_bytes(0) + var_bytes(0),
{
    let c = Map::<u64, Option<u64>>::empty();
    let none = Seq::<u64>::empty();
    let nvals = Seq::<Vec<u8>>::empty();
    if packet_form(c, transient, encode_value, bytes) {
        let (keys, vals) = choose|keys: Seq<u64>, vals: Seq<Vec<u8>>|
            {
                &&& keys.to_set() == c.dom()
                &&& keys.no_duplicates()
                &&& vals.len() == keys.len()
                &&& forall|i: int|
                    0 <= i < keys.len() && c[keys[i]] is Some ==> encode_value.ensures(
                        (ErasedComponentType { id: keys[i], transient: transient.contains(keys[i]) }, c[keys[i]]->0),
                        Ok::<Vec<u8>, PacketError>(#[trigger] vals[i]),
                    )
                &&& bytes == crate::component::packet::packet_bytes(c, keys, vals)
            };
        if keys.len() > 0 {
            assert(keys.to_set().contains(keys[0]));
        }
        assert(keys =~= none);
    }
    if bytes == var_bytes(0) + var_bytes(0) {
        assert(none.to_set() =~= c.dom());
        assert(bytes == crate::component::packet::packet_bytes(c, none, nvals));
    }
}

/// A stack that is not empty, written in its packet form, reads back: the
/// count and the item id come first, and from the position after the
/// count written again, the changes decode to those written, to the end of
/// the form, and nothing there fails.
pub proof fn lemma_stack_packet_roundtrip<
    F: Fn(ErasedComponentType, u64) -> Result<Vec<u8>, PacketError>,
    L: Fn(u64) -> Option<ErasedComponentType>,
    G: Fn(ErasedComponentType, &[u8], usize) -> Result<(u64, usize), PacketError>,
>(
    count: u32,
    raw_id: u64,
    c: Map<u64, Option<u64>>,
    transient: Set<u64>,
    encode_value: F,
    lookup: L,
    decode_value: G,
    tail: Seq<u8>,
    buf: &[u8],
    start: int,
)
    requires
        packet_form(c, transient, encode_value, tail),
        c.dom().len() <= u32::MAX,
        0 <= start,
        start + stack_head_bytes(count, raw_id).len() + tail.len() <= buf@.len() <= usize::MAX,
        buf@.subrange(start, start + stack_head_bytes(count, raw_id).len() + tail.len())
            == stack_head_bytes(count, raw_id) + tail,
        resolves_types(c, transient, lookup),
        reads_back(encode_value, decode_value),
    ensures
        ({
            let l1 = var_bytes(count as nat).len();
            let l2 = var_bytes(raw_id as nat).len();
            let q = start + l1 + l2 + 4;
            let end = start + stack_head_bytes(count, raw_id).len() + tail.len();
            &&& var_read(buf@.subrange(start, buf@.len() as int), 32) == (VarRead::Value {
                value: count as nat,
                len: l1,
            })
            &&& var_read(buf@.subrange(start + l1, buf@.len() as int), 64) == (VarRead::Value {
                value: raw_id as nat,
                len: l2,
            })
            &&& q <= buf@.len()
            &&& forall|e: PacketError| !decode_fails(buf, q, lookup, decode_value, e)
            &&& forall|c2: ComponentChanges, n: int|
                #[trigger] decodes_to(buf, q, lookup, decode_value, c2, n) ==> c2@ == c && n == end
        }),
{
    let vc = var_bytes(count as nat);
    let vi = var_bytes(raw_id as nat);
    let be = be_bytes(count as nat, 4);
    let head = stack_head_bytes(count, raw_id);
    lemma_be_bytes_len(count as nat, 4);
    assert(head + tail =~= Seq::<u8>::empty() + vc + (vi + be + tail));
    lemma_window(buf@, start, Seq::<u8>::empty(), vc, vi + be + tail);
    lemma_var_roundtrip(count as nat, 32, buf@.subrange(start + vc.len(), buf@.len() as int));
    assert(buf@.subrange(start, buf@.len() as int) =~= vc + buf@.subrange(
        start + vc.len(),
        buf@.len() as int,
    ));
    assert(head + tail =~= vc + vi + (be + tail));
    lemma_window(buf@, start, vc, vi, be + tail);
    lemma_var_roundtrip(raw_id as nat, 64, buf@.subrange(start + vc.len() + vi.len(), buf@.len() as int));
    assert(head + tail =~= head + tail + Seq::<u8>::empty());
    lemma_window(buf@, start, head, tail, Seq::<u8>::empty());
    lemma_changes_packet_roundtrip(
        c,
        transient,
        encode_value,
        lookup,
        decode_value,
        tail,
        buf,
        start + head.len(),
    );
}

impl<'r> From<Item<'r>> for ItemStack<'r> {
    /// A stack of one of the item, its components patched over the item's
    /// with no changes.
    fn from(value: Item<'r>) -> (r: ItemStack<'r>)
        ensures
            r.item_spec() == value,
            r.count_spec() == 1,
            r.components_spec()@ == value.components_spec()@,
            r.components_spec().is_patched(),
            r.components_spec().base_contents() == value.components_spec()@,
            r.components_spec().changes_contents() == Map::<u64, Option<u64>>::empty(),
            r.components_spec().wf(),
    {
        ItemStack::new(value, 1)
    }
}

impl<'r> vstd::std_specs::convert::FromSpecImpl<Item<'r>> for ItemStack<'r> {
    /// The stack holds a new map, so no spec value stands for it; its
    /// `from` states what holds of it instead.
    open spec fn obeys_from_spec() -> bool {
        false
    }

    open spec fn from_spec(v: Item<'r>) -> ItemStack<'r> {
        arbitrary()
    }
}

impl<'r> From<ItemStack<'r>> for Item<'r> {
    /// The item of the stack.
    fn from(value: ItemStack<'r>) -> (r: Item<'r>)
        ensures
            r == value.item_spec(),
    {
        value.item
    }
}

impl<'r> vstd::std_specs::convert::FromSpecImpl<ItemStack<'r>> for Item<'r> {
    open spec fn obeys_from_spec() -> bool {
        true
    }

    open spec fn from_spec(v: ItemStack<'r>) -> Item<'r> {
        v.item_spec()
    }
}

/// Errors of serializing and deserializing item stacks.
#[derive(Debug, Clone, Copy, PartialEq, Eq, Structural)]
pub enum StackError {
    /// The components of the stack are not patched over its item's.
    NotPatched,
    /// A field name is none of `id`, `count` and `components`.
    UnknownField,
    /// The item is given twice.
    DuplicateId,
    /// The components are given twice.
    DuplicateComponents,
    /// No field gives the item.
    MissingId,
    /// No field gives the components.
    MissingComponents,
    /// The packet form of a component value could not be had.
    Packet(PacketError),
}

/// A field of a serialized item stack.
#[derive(Debug, Clone, Copy, PartialEq, Eq, Structural)]
pub enum StackField {
    /// The item, by its identifier.
    Id,
    /// The count.
    Count,
    /// The changes of the components.
    Components,
}

impl StackField {
    /// The field a serialized key names.
    pub fn from_key(key: &str) -> (r: Result<StackField, StackError>)
        ensures
            key@ == "id"@ ==> r == Ok::<StackField, StackError>(StackField::Id),
            key@ != "id"@ && key@ == "count"@ ==> r == Ok::<StackField, StackError>(
                StackField::Count,
            ),
            key@ != "id"@ && key@ != "count"@ && key@ == "components"@ ==> r == Ok::<
                StackField,
                StackError,
            >(StackField::Components),
            key@ != "id"@ && key@ != "count"@ && key@ != "components"@ ==> r == Err::<
                StackField,
                StackError,
            >(StackError::UnknownField),
    {
        if str_eq(key, "id") {
            Ok(StackField::Id)
        } else if str_eq(key, "count") {
            Ok(StackField::Count)
        } else if str_eq(key, "components") {
            Ok(StackField::Components)
        } else {
            Err(StackError::UnknownField)
        }
    }
}

/// The fields read so far of a serialized item stack.
pub struct StackFields<'r> {
    /// The item, once read.
    pub item: Option<Item<'r>>,
    /// The count; zero until read, and a later one replaces it.
    pub count: u32,
    /// The changes of the components, once read.
    pub changes: Option<ComponentChanges>,
}

impl<'r> StackFields<'r> {
    /// Nothing read yet.
    pub fn new() -> (r: Self)
        ensures
            r.item is None,
            r.count == 0,
            r.changes is None,
    {
        StackFields { item: None, count: 0, changes: None }
    }

    /// Reads the item; a second item is an error.
    pub fn visit_item(&mut self, item: Item<'r>) -> (r: Result<(), StackError>)
        ensures
            old(self).item is Some ==> r == Err::<(), StackError>(StackError::DuplicateId)
                && final(self).item == old(self).item,
            old(self).item is None ==> r == Ok::<(), StackError>(()) && final(self).item == Some(
                item,
            ),
            final(self).count == old(self).count,
            final(self).changes == old(self).changes,
    {
        if self.item.is_some() {
            return Err(StackError::DuplicateId);
        }
        self.item = Some(item);
        Ok(())
    }

    /// Reads the count; a later one replaces an earlier one.
    pub fn visit_count(&mut self, count: u32)
        ensures
            final(self).count == count,
            final(self).item == old(self).item,
            final(self).changes == old(self).changes,
    {
        self.count = count;
    }

    /// Reads the changes of the components; second changes are an error.
    pub fn visit_changes(&mut self, changes: ComponentChanges) -> (r: Result<(), StackError>)
        ensures
            old(self).changes is Some ==> r == Err::<(), StackError>(
                StackError::DuplicateComponents,
            ) && final(self).changes == old(self).changes,
            old(self).changes is None ==> r == Ok::<(), StackError>(()) && final(self).changes
                == Some(changes),
            final(self).item == old(self).item,
            final(self).count == old(self).count,
    {
        if self.changes.is_some() {
            return Err(StackError::DuplicateComponents);
        }
        self.changes = Some(changes);
        Ok(())
    }

    /// The stack the fields read give: the item, the count, and the item's
    /// components patched by the changes read. The item is looked for first,
    /// then the changes.
    pub fn finish(self) -> (r: Result<ItemStack<'r>, StackError>)
        requires
            self.changes is Some ==> self.changes->0.wf(),
            self.item is Some && self.changes is Some ==> self.item->0.components_spec().len_spec()
                + self.changes->0@.dom().len() <= isize::MAX,
        ensures
            self.item is None ==> r matches Err(StackError::MissingId),
            self.item is Some && self.changes is None ==> r matches Err(
                StackError::MissingComponents,
            ),
            self.item is Some && self.changes is Some ==> (r matches Ok(s) && s.item_spec()
                == self.item->0 && s.count_spec() == self.count && s.components_spec().is_patched()
                && s.components_spec().base_contents() == self.item->0.components_spec()@
                && s.components_spec().changes_contents() == self.changes->0@),
    {
        let item = match self.item {
            Some(i) => i,
            None => return Err(StackError::MissingId),
        };
        let changes = match self.changes {
            Some(c) => c,
            None => return Err(StackError::MissingComponents),
        };
        Ok(ItemStack::with_component(
            item,
            self.count,
            ComponentMap::with_changes(item.components(), changes),
        ))
    }
}

} // verus!
