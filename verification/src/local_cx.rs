//! Local context traits: a local context carries data, such as registries,
//! to the code that reads and writes values on behalf of the global context.

use vstd::prelude::*;

use crate::context::{GlobalContext, NbtError};

verus! {

/// A base local context.
pub trait BaseLocalContext: Sized + Copy {}

/// A local context provides data to the global context.
pub trait LocalContext<T>: BaseLocalContext {
    /// The data that the local context holds.
    spec fn acquired(self) -> T;

    /// Acquire the data from the local context.
    fn acquire(self) -> (r: T)
        ensures
            r == self.acquired(),
    ;
}

/// A local context that can be peeked.
pub trait PeekLocalContext<T>: BaseLocalContext {
    /// Peek the data from the local context.
    fn peek_acquire<F: FnOnce(&T) -> U, U>(self, f: F) -> U
        requires
            forall|t: &T| call_requires(f, (t,)),
    ;
}

impl<'a, L, T: 'a> PeekLocalContext<T> for L where L: LocalContext<&'a T> {
    /// Hands the acquired reference to `f`.
    fn peek_acquire<F: FnOnce(&T) -> U, U>(self, f: F) -> (r: U)
        ensures
            call_ensures(f, (self.acquired(),), r),
    {
        f(self.acquire())
    }
}

/// A general type that provides explicit local context type.
pub trait ProvideLocalCxTy {
    /// The local context type.
    type LocalContext<'cx>: BaseLocalContext;
}

/// Global context types that provides explicit local context type.
///
/// See [`ProvideLocalCxTy`].
pub trait GlobalProvideLocalCxTy: ProvideLocalCxTy + GlobalContext {}

/// A type that carries a local context along with the data.
pub struct WithLocalCx<T, LocalCx> {
    /// The local context.
    pub local_cx: LocalCx,
    /// The data.
    pub inner: T,
}

impl<T, Cx: BaseLocalContext> WithLocalCx<T, Cx> {
    /// Borrows the inner data, carrying the same local context.
    pub fn as_mut(&mut self) -> (r: WithLocalCx<&mut T, Cx>)
        ensures
            r.local_cx == old(self).local_cx,
            *r.inner == old(self).inner,
            final(self).local_cx == old(self).local_cx,
            final(self).inner == *final(r.inner),
    {
        WithLocalCx { local_cx: self.local_cx, inner: &mut self.inner }
    }
}

/// Extension trait for local context.
pub trait LocalContextExt: Sized {
    /// Create a `WithLocalCx` with the given inner data.
    fn with<T>(self, inner: T) -> (r: WithLocalCx<T, Self>)
        ensures
            r.inner == inner,
            r.local_cx == self,
    {
        WithLocalCx { inner, local_cx: self }
    }
}

impl<Cx: BaseLocalContext> LocalContextExt for Cx {}

/// A type that can be transformed into a [`WithLocalCx`] by taking ownership of it.
pub trait ForwardToWithLocalCx {
    /// The type of the inner data.
    type Forwarded;

    /// The type of the local context.
    type LocalCx: BaseLocalContext;

    /// Transform/forward into a [`WithLocalCx`].
    fn forward(self) -> WithLocalCx<Self::Forwarded, Self::LocalCx>;
}

impl<T, L: BaseLocalContext> ForwardToWithLocalCx for WithLocalCx<T, L> {
    type Forwarded = T;

    type LocalCx = L;

    fn forward(self) -> (r: WithLocalCx<T, L>)
        ensures
            r == self,
    {
        self
    }
}

impl<'a, T, L: BaseLocalContext> ForwardToWithLocalCx for &'a WithLocalCx<T, L> {
    type Forwarded = &'a T;

    type LocalCx = L;

    fn forward(self) -> (r: WithLocalCx<&'a T, L>)
        ensures
            r.local_cx == self.local_cx,
            *r.inner == self.inner,
    {
        WithLocalCx { local_cx: self.local_cx, inner: &self.inner }
    }
}

/// Global contexts that can write NBT tags of `T` to a byte buffer with a
/// local context.
pub trait WriteNbtWithCx<T, Cx>: GlobalContext {
    /// Appends the tag of `value` to the writer.
    fn write_nbt(value: T, writer: WithLocalCx<&mut Vec<u8>, Cx>) -> Result<(), NbtError>;
}

/// Global contexts that can read NBT tags of `T` from a byte buffer with a
/// local context.
pub trait ReadNbtWithCx<T, Cx>: GlobalContext {
    /// Reads a tag from the front of the reader and returns its value and
    /// the number of bytes it took.
    fn read_nbt(reader: WithLocalCx<&[u8], Cx>) -> Result<(T, usize), NbtError>;
}

/// Global contexts that can update existing values of `T` from NBT tags
/// with a local context.
pub trait UpdateNbtWithCx<T, Cx>: GlobalContext {
    /// Updates `value` from the tag at the front of the reader and returns
    /// the number of bytes it took.
    fn update_nbt(value: &mut T, reader: WithLocalCx<&[u8], Cx>) -> Result<usize, NbtError>;
}

} // verus!
