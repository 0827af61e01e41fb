//! Global context traits.
//!
//! A global context (`Cx` in convention) is a global types and behavior
//! provider for the whole game: it provides the identifier type, the NBT
//! types, the random number generators and so on.
//!
//! NBT tags are written to and read from byte buffers.

use std::marker::PhantomData;

use vstd::prelude::*;

verus! {

/// Marker trait for global contexts.
///
/// The type should be zero-sized, and should contain no valid instances,
/// as it is used as a marker.
pub trait GlobalContext: Sized + 'static {}

/// Marker trait for global contexts that provide an identifier type.
pub trait ProvideIdTy: GlobalContext {
    /// Identifier type.
    type Id: std::hash::Hash + Eq;
}

/// Marker trait for global contexts that provide a version type.
pub trait ProvideVersionTy: GlobalContext {
    /// Version type.
    type Version: std::hash::Hash + Eq;
}

/// Marker trait for global contexts that provide a `NbtCompound` type and friends.
pub trait ProvideNbtTy: GlobalContext {
    /// NBT compound type.
    type Compound;

    /// [`i32`] array type.
    type IntArray;

    /// [`i64`] array type.
    type LongArray;
}

/// Global contexts providing the list of block state ids.
pub trait ProvideStateIds: GlobalContext {
    /// The type of the state ids.
    type List;

    /// Returns the state ids.
    fn state_ids() -> Self::List;
}

/// Global contexts providing an extension type to fluid states.
pub trait ProvideFluidStateExtTy: ProvideIdTy {
    /// The type of the fluid state extension.
    type FluidStateExt;
}

/// Errors of reading and writing NBT tags.
#[derive(Debug, Clone, Copy, PartialEq, Eq)]
pub enum NbtError {
    /// The bytes do not hold a tag of the expected shape.
    InvalidData,
    /// The bytes end before the tag does.
    UnexpectedEnd,
}

/// Global contexts that can write NBT tags of `T` to a byte buffer.
pub trait WriteNbt<T>: GlobalContext {
    /// What writing the tag of `value` after the bytes `before` gives: the
    /// result, and the bytes of the writer after it.
    spec fn nbt_written(value: T, before: Seq<u8>) -> (Result<(), NbtError>, Seq<u8>);

    /// Appends the tag of `value` to the writer.
    fn write_nbt(value: T, writer: &mut Vec<u8>) -> (r: Result<(), NbtError>)
        ensures
            (r, final(writer)@) == Self::nbt_written(value, old(writer)@),
    ;
}

/// Global contexts that can read NBT tags of `T` from a byte buffer.
pub trait ReadNbt<T>: GlobalContext {
    /// What reading a tag from the front of the bytes gives: its value and
    /// the number of bytes it took, or the error.
    spec fn nbt_read(reader: Seq<u8>) -> Result<(T, usize), NbtError>;

    /// Reads a tag from the front of the reader and returns its value and
    /// the number of bytes it took.
    fn read_nbt(reader: &[u8]) -> (r: Result<(T, usize), NbtError>)
        ensures
            r == Self::nbt_read(reader@),
    ;
}

/// Global contexts that can update existing values of `T` from NBT tags.
pub trait UpdateNbt<T>: GlobalContext {
    /// Updates `value` from the tag at the front of the reader and returns
    /// the number of bytes it took.
    fn update_nbt(value: &mut T, reader: &[u8]) -> Result<usize, NbtError>;
}

impl<T, Cx> UpdateNbt<T> for Cx where Cx: ReadNbt<T> {
    /// Replaces `value` by the value read, or leaves it when reading fails.
    fn update_nbt(value: &mut T, reader: &[u8]) -> (r: Result<usize, NbtError>)
        ensures
            match Cx::nbt_read(reader@) {
                Ok((v, n)) => r == Ok::<usize, NbtError>(n) && *final(value) == v,
                Err(e) => r == Err::<usize, NbtError>(e) && *final(value) == *old(value),
            },
    {
        match Cx::read_nbt(reader) {
            Ok((v, n)) => {
                *value = v;
                Ok(n)
            },
            Err(e) => Err(e),
        }
    }
}

/// Global contexts providing random number generators.
pub trait ProvideRng: GlobalContext {
    /// Type of fast RNG.
    type FastRng: 'static;

    /// Type of cryptographic RNG.
    type CryptoRng: 'static;
}

/// A type that represents a locked RNG.
pub trait LockedRng<T> {
    /// Runs `f` with the locked RNG.
    fn with_locked<R, F: FnOnce(&mut T) -> R>(&self, f: F) -> R;
}

/// A trait for providing space types for small boxes.
pub trait ProvideSmallBoxSpaceTy: GlobalContext {
    /// The space type for generic trait objects.
    type GenericTraitObjectSpace;
}

/// A type that wraps a value with a context, to be written and read as an
/// NBT tag by the context.
#[derive(Debug)]
pub struct Nbt<T, Cx>(pub T, PhantomData<Cx>);

impl<T, Cx> Nbt<T, Cx> {
    /// The wrapped value.
    pub closed spec fn inner(&self) -> T {
        self.0
    }

    /// Creates a new `Nbt` with the given value.
    pub fn new(value: T) -> (r: Self)
        ensures
            r.inner() == value,
    {
        Nbt(value, PhantomData)
    }

    /// Consumes the `Nbt` and returns the inner value.
    pub fn into_inner(self) -> (r: T)
        ensures
            r == self.inner(),
    {
        self.0
    }
}

impl<T, Cx> From<T> for Nbt<T, Cx> {
    /// Wraps the value.
    fn from(value: T) -> (r: Nbt<T, Cx>)
        ensures
            r.inner() == value,
    {
        Nbt(value, PhantomData)
    }
}

impl<T, Cx> vstd::std_specs::convert::FromSpecImpl<T> for Nbt<T, Cx> {
    open spec fn obeys_from_spec() -> bool {
        false
    }

    /// The private marker keeps the wrapper's constructor out of spec code
    /// elsewhere; `from` states instead that the value is kept.
    open spec fn from_spec(v: T) -> Nbt<T, Cx> {
        arbitrary()
    }
}

impl<T, Cx: WriteNbt<T> + ReadNbt<T>> Nbt<T, Cx> {
    /// Writes the inner value as an NBT tag.
    pub fn encode(self, buf: &mut Vec<u8>) -> (r: Result<(), NbtError>)
        ensures
            (r, final(buf)@) == Cx::nbt_written(self.inner(), old(buf)@),
    {
        Cx::write_nbt(self.0, buf)
    }

    /// Reads an NBT tag and wraps its value, returning it with the number
    /// of bytes it took.
    pub fn decode(buf: &[u8]) -> (r: Result<(Self, usize), NbtError>)
        ensures
            match Cx::nbt_read(buf@) {
                Ok((v, n)) => r matches Ok((w, m)) && w.inner() == v && m == n,
                Err(e) => r == Err::<(Self, usize), NbtError>(e),
            },
    {
        match Cx::read_nbt(buf) {
            Ok((v, n)) => Ok((Nbt::new(v), n)),
            Err(e) => Err(e),
        }
    }
}

} // verus!
