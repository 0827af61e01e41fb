//! Entities: the reasons they are removed, the messages sent to the entity
//! manager when they change, the counter of their network ids, and the
//! block and chunk positions cached along with their position.

use std::sync::atomic::AtomicU32;

use crossbeam_channel::{Sender, TrySendError};
use vstd::prelude::*;

use crate::block_entity::str_eq;
use crate::block_pos::BlockPos;

verus! {

#[verifier::external_type_specification]
#[verifier::external_body]
#[verifier::reject_recursive_types(T)]
pub struct ExSender<T>(Sender<T>);

#[verifier::external_type_specification]
#[verifier::external_body]
pub struct ExTypeId(std::any::TypeId);

#[verifier::external_type_specification]
#[verifier::external_body]
#[verifier::reject_recursive_types(T)]
pub struct ExTrySendError<T>(TrySendError<T>);

/// The reason for removing an entity.
#[derive(Debug)]
pub struct RemovalReason {
    /// Description of the reason for removing the entity.
    pub reason: &'static str,
    /// Whether the entity should be destroyed.
    pub should_destroy: bool,
    /// Whether the entity should be saved.
    pub should_save: bool,
}

/// A message variant of a [`ChangeMessage`].
#[derive(Debug, Clone, Copy)]
pub enum ChangeMessageVariant {
    /// The entity's position is updated.
    UpdatePos,
    /// The entity is removed.
    Remove(&'static RemovalReason),
}

/// A message sent to the entity manager.
#[derive(Debug, Clone, Copy)]
pub struct ChangeMessage {
    /// The network id of the entity being changed.
    pub entity: u32,
    /// The variant of the change message.
    pub variant: ChangeMessageVariant,
    /// The chunk section position of the entity.
    pub section_pos: u64,
}

/// `Sender::try_send`: sends the message if the channel has room and a
/// receiver. Whether it was sent depends on the channel's state.
#[verifier::external_body]
fn try_send_change(sender: &Sender<ChangeMessage>, msg: ChangeMessage) -> (r: Result<
    (),
    TrySendError<ChangeMessage>,
>) {
    sender.try_send(msg)
}

/// A listener for entity changes, simulated by a channel sending
/// [`ChangeMessage`]s.
pub struct ChangeListener {
    sender: Sender<ChangeMessage>,
    section_pos: u64,
}

impl ChangeListener {
    /// The chunk section position the listener reports.
    pub closed spec fn section_pos_spec(&self) -> u64 {
        self.section_pos
    }

    /// Creates a new change listener.
    pub fn new(sender: Sender<ChangeMessage>, section_pos: u64) -> (r: ChangeListener)
        ensures
            r.section_pos_spec() == section_pos,
    {
        ChangeListener { sender, section_pos }
    }

    /// The message that reports the entity's position as updated.
    pub fn pos_update(&self, entity: u32) -> (r: ChangeMessage)
        ensures
            r.entity == entity,
            r.variant is UpdatePos,
            r.section_pos == self.section_pos_spec(),
    {
        ChangeMessage {
            entity,
            variant: ChangeMessageVariant::UpdatePos,
            section_pos: self.section_pos,
        }
    }

    /// Whether `r` is what handing `msg` to this listener's sender gave:
    /// the message went to [`Sender::try_send`] and came back as `r`.
    pub closed spec fn handed(&self, msg: ChangeMessage, r: Result<(), TrySendError<ChangeMessage>>) -> bool {
        call_ensures(try_send_change, (&self.sender, msg), r)
    }

    /// Reports the entity's position as updated: hands the sender the
    /// message [`Self::pos_update`] gives, whatever the section position, and
    /// returns what sending it gave; a full or closed channel drops it.
    pub fn notify_pos_update(&self, entity: u32) -> (r: Result<(), TrySendError<ChangeMessage>>)
        ensures
            self.handed(
                ChangeMessage {
                    entity,
                    variant: ChangeMessageVariant::UpdatePos,
                    section_pos: self.section_pos_spec(),
                },
                r,
            ),
    {
        let msg = self.pos_update(entity);
        let send = try_send_change;
        send(&self.sender, msg)
    }
}

/// Counter of entity network ids, which should be provided by the local
/// context.
#[derive(Debug)]
pub struct IdCounter {
    inner: AtomicU32,
}

impl IdCounter {
    /// A counter that hands out ids from the given one on.
    pub fn new(start: u32) -> (r: IdCounter) {
        IdCounter { inner: AtomicU32::new(start) }
    }

    /// Takes the next network id. The counter is shared, so which id comes
    /// back depends on the other takers.
    pub fn next_id(&self) -> (r: u32) {
        self.inner.fetch_add(1, std::sync::atomic::Ordering::Relaxed)
    }
}

/// The position of a chunk: the column of sixteen by sixteen blocks.
#[derive(Debug, Clone, Copy, PartialEq, Eq, Hash, Structural)]
pub struct ChunkPos {
    /// The x-coordinate of the chunk.
    pub x: i32,
    /// The z-coordinate of the chunk.
    pub z: i32,
}

/// The chunk coordinate of a block coordinate: the coordinate divided by
/// sixteen, rounded down.
pub open spec fn chunk_coord(c: i32) -> i32 {
    (c >> 4u32) as i32
}

impl ChunkPos {
    /// The chunk a block is in.
    pub fn of_block(pos: BlockPos) -> (r: ChunkPos)
        ensures
            r.x == chunk_coord(pos.x),
            r.z == chunk_coord(pos.z),
    {
        ChunkPos { x: pos.x >> 4u32, z: pos.z >> 4u32 }
    }
}

/// The positions an entity caches along with its own: the block it is in,
/// the chunk of that block, and the block state there once looked up.
#[derive(Debug, Clone, Copy, PartialEq, Eq, Structural)]
pub struct PosCache {
    /// The block the entity is in.
    pub block_pos: BlockPos,
    /// The chunk of that block.
    pub chunk_pos: ChunkPos,
    /// The raw id of the block state there, once looked up.
    pub state_at_pos: Option<u64>,
}

impl PosCache {
    /// The cache of an entity at the origin, with no state looked up.
    pub fn new() -> (r: PosCache)
        ensures
            r.block_pos == (BlockPos { x: 0, y: 0, z: 0 }),
            r.chunk_pos == (ChunkPos { x: 0, z: 0 }),
            r.state_at_pos is None,
    {
        PosCache { block_pos: BlockPos::origin(), chunk_pos: ChunkPos { x: 0, z: 0 }, state_at_pos: None }
    }

    /// Moves the entity into the given block: when it is another block, the
    /// block and its chunk are cached anew and the state looked up is
    /// dropped; else nothing changes.
    pub fn move_to(&mut self, block_pos: BlockPos)
        ensures
            block_pos == old(self).block_pos ==> *final(self) == *old(self),
            block_pos != old(self).block_pos ==> *final(self) == (PosCache {
                block_pos,
                chunk_pos: ChunkPos { x: chunk_coord(block_pos.x), z: chunk_coord(block_pos.z) },
                state_at_pos: None,
            }),
    {
        if self.block_pos != block_pos {
            self.block_pos = block_pos;
            self.chunk_pos = ChunkPos::of_block(block_pos);
            self.state_at_pos = None;
        }
    }
}

/// Whether an entity is serialized as a passenger: when it is not removed
/// or is removed for a reason that saves it, and its type is saveable.
pub fn ser_as_passenger(removal: Option<&RemovalReason>, type_saveable: bool) -> (r: bool)
    ensures
        r == ((removal is None || removal->0.should_save) && type_saveable),
{
    let saved = match removal {
        None => true,
        Some(reason) => reason.should_save,
    };
    saved && type_saveable
}

/// The serialized key of an entity's position.
pub const KEY_POS: &'static str = "Pos";

/// The serialized key of an entity's velocity.
pub const KEY_VELOCITY: &'static str = "Motion";

/// The serialized key of an entity's rotation.
pub const KEY_ROTATION: &'static str = "Rotation";

/// The serialized key of an entity's UUID.
pub const KEY_UUID: &'static str = "UUID";

/// The serialized key of an entity's custom compound.
pub const KEY_CUSTOM_COMPONENT: &'static str = "data";

/// The serialized key of an entity's passengers.
pub const KEY_PASSENGERS: &'static str = "Passengers";

/// A field of a serialized entity.
#[derive(Debug, Clone, PartialEq, Eq)]
pub enum EntityField {
    /// The position.
    Pos,
    /// The velocity.
    Velocity,
    /// The rotation.
    Rotation,
    /// The UUID.
    Uuid,
    /// The custom compound.
    CustomComponent,
    /// The passengers.
    Passengers,
    /// A field of the entity's own data.
    Other(String),
}

impl EntityField {
    /// The field a serialized key names; any other key is a field of the
    /// entity's own data.
    pub fn from_key(key: &str) -> (r: EntityField)
        ensures
            key@ == KEY_POS@ ==> r == EntityField::Pos,
            key@ != KEY_POS@ && key@ == KEY_VELOCITY@ ==> r == EntityField::Velocity,
            key@ != KEY_POS@ && key@ != KEY_VELOCITY@ && key@ == KEY_ROTATION@ ==> r
                == EntityField::Rotation,
            key@ != KEY_POS@ && key@ != KEY_VELOCITY@ && key@ != KEY_ROTATION@ && key@
                == KEY_UUID@ ==> r == EntityField::Uuid,
            key@ != KEY_POS@ && key@ != KEY_VELOCITY@ && key@ != KEY_ROTATION@ && key@
                != KEY_UUID@ && key@ == KEY_CUSTOM_COMPONENT@ ==> r == EntityField::CustomComponent,
            key@ != KEY_POS@ && key@ != KEY_VELOCITY@ && key@ != KEY_ROTATION@ && key@
                != KEY_UUID@ && key@ != KEY_CUSTOM_COMPONENT@ && key@ == KEY_PASSENGERS@ ==> r
                == EntityField::Passengers,
            key@ != KEY_POS@ && key@ != KEY_VELOCITY@ && key@ != KEY_ROTATION@ && key@
                != KEY_UUID@ && key@ != KEY_CUSTOM_COMPONENT@ && key@ != KEY_PASSENGERS@ ==> (
            r matches EntityField::Other(s) && s@ == key@),
    {
        if str_eq(key, KEY_POS) {
            EntityField::Pos
        } else if str_eq(key, KEY_VELOCITY) {
            EntityField::Velocity
        } else if str_eq(key, KEY_ROTATION) {
            EntityField::Rotation
        } else if str_eq(key, KEY_UUID) {
            EntityField::Uuid
        } else if str_eq(key, KEY_CUSTOM_COMPONENT) {
            EntityField::CustomComponent
        } else if str_eq(key, KEY_PASSENGERS) {
            EntityField::Passengers
        } else {
            EntityField::Other(key.to_owned())
        }
    }

    /// The serialized key of this field.
    pub fn key(&self) -> (r: &str)
        ensures
            self is Pos ==> r@ == KEY_POS@,
            self is Velocity ==> r@ == KEY_VELOCITY@,
            self is Rotation ==> r@ == KEY_ROTATION@,
            self is Uuid ==> r@ == KEY_UUID@,
            self is CustomComponent ==> r@ == KEY_CUSTOM_COMPONENT@,
            self is Passengers ==> r@ == KEY_PASSENGERS@,
            self matches EntityField::Other(s) ==> r@ == s@,
    {
        match self {
            EntityField::Pos => KEY_POS,
            EntityField::Velocity => KEY_VELOCITY,
            EntityField::Rotation => KEY_ROTATION,
            EntityField::Uuid => KEY_UUID,
            EntityField::CustomComponent => KEY_CUSTOM_COMPONENT,
            EntityField::Passengers => KEY_PASSENGERS,
            EntityField::Other(name) => name.as_str(),
        }
    }
}

/// A filter that narrows objects of one type to some subtype.
pub trait TypeFilter<T: ?Sized> {
    /// The output subtype.
    type Output: ?Sized;

    /// Narrows the given object to the output subtype, if it is one.
    fn cast_ref<'o>(&self, obj: &'o T) -> Option<&'o Self::Output>;

    /// Narrows the given object to the output subtype, if it is one.
    fn cast_mut<'o>(&self, obj: &'o mut T) -> Option<&'o mut Self::Output>;

    /// Returns the type id of the output subtype, if known as, and only if
    /// it is a concrete type.
    fn hint_typeid(&self) -> (r: Option<std::any::TypeId>)
        default_ensures
            r is None,
    {
        None
    }
}

impl<T: ?Sized> TypeFilter<T> for () {
    type Output = T;

    /// Every object is of its own type.
    fn cast_ref<'o>(&self, obj: &'o T) -> (r: Option<&'o T>)
        ensures
            r == Some(obj),
    {
        Some(obj)
    }

    /// Every object is of its own type.
    fn cast_mut<'o>(&self, obj: &'o mut T) -> (r: Option<&'o mut T>)
        ensures
            r is Some,
    {
        Some(obj)
    }
}

} // verus!
