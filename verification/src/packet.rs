//! Traits for encoding and decoding packets to and from byte buffers, and
//! their implementations for primitive values, written big-endian, and for
//! variable-length integers.

use std::marker::PhantomData;

use vstd::prelude::*;

use crate::varint::{
    max_var_len, read_var, var_bytes, var_read, width_modulus, write_var, VarIntError, VarRead, Variable,
};

verus! {

/// Errors of packet encoding and decoding.
#[derive(Debug, Clone, Copy, PartialEq, Eq, Structural)]
pub enum PacketError {
    /// A variable-length integer is malformed.
    VarInt(VarIntError),
    /// The bytes do not hold a value of the expected shape.
    InvalidData,
}

/// Packet encoders.
pub trait Encode {
    /// Encodes this packet into the buffer.
    fn encode(&self, buf: &mut Vec<u8>) -> Result<(), PacketError>;
}

/// Packet decoders.
pub trait Decode: Sized {
    /// Whether the buffer holds enough bytes for decoding to finish.
    spec fn decodable(buf: Seq<u8>) -> bool;

    /// What decoding the front of a decodable buffer gives: the value and
    /// the number of bytes it took, or the error.
    spec fn decoded(buf: Seq<u8>) -> Result<(Self, usize), PacketError>;

    /// Decodes a packet from the front of the buffer and returns it with
    /// the number of bytes it took.
    fn decode(buf: &[u8]) -> (r: Result<(Self, usize), PacketError>)
        requires
            Self::decodable(buf@),
        ensures
            r == Self::decoded(buf@),
    ;
}

/// Packet decoders that decode in place.
pub trait DecodeInPlace {
    /// Whether the buffer holds enough bytes for decoding to finish.
    spec fn decodable_in_place(buf: Seq<u8>) -> bool;

    /// Decodes this packet from the buffer in place and returns the number
    /// of bytes it took.
    fn decode_in_place(&mut self, buf: &[u8]) -> Result<usize, PacketError>
        requires
            Self::decodable_in_place(buf@),
    ;
}

impl<T: Decode> DecodeInPlace for T {
    open spec fn decodable_in_place(buf: Seq<u8>) -> bool {
        T::decodable(buf)
    }

    /// Replaces this value by the decoded one, or leaves it when decoding fails.
    fn decode_in_place(&mut self, buf: &[u8]) -> (r: Result<usize, PacketError>)
        ensures
            match T::decoded(buf@) {
                Ok((v, n)) => r == Ok::<usize, PacketError>(n) && *final(self) == v,
                Err(e) => r == Err::<usize, PacketError>(e) && *final(self) == *old(self),
            },
    {
        match T::decode(buf) {
            Ok((v, n)) => {
                *self = v;
                Ok(n)
            },
            Err(e) => Err(e),
        }
    }
}

/// Packet decoders that decodes into a specified type.
pub trait DecodeSeed {
    /// The output type of the decoder.
    type Output;

    /// Whether the buffer holds enough bytes for decoding to finish.
    spec fn seed_decodable(&self, buf: Seq<u8>) -> bool;

    /// Decodes a value from the front of the buffer and returns it with the
    /// number of bytes it took.
    fn decode(self, buf: &[u8]) -> Result<(Self::Output, usize), PacketError>
        requires
            self.seed_decodable(buf@),
    ;
}

impl<T: Decode> DecodeSeed for PhantomData<T> {
    type Output = T;

    open spec fn seed_decodable(&self, buf: Seq<u8>) -> bool {
        T::decodable(buf)
    }

    /// Decodes a value of `T`.
    fn decode(self, buf: &[u8]) -> (r: Result<(T, usize), PacketError>)
        ensures
            r == T::decoded(buf@),
    {
        T::decode(buf)
    }
}

/// `256^n`.
pub open spec fn pow256(n: nat) -> nat
    decreases n,
{
    if n == 0 {
        1
    } else {
        256 * pow256((n - 1) as nat)
    }
}

/// The last `n` bytes of `x`, most significant first.
pub open spec fn be_bytes(x: nat, n: nat) -> Seq<u8>
    decreases n,
{
    if n == 0 {
        Seq::empty()
    } else {
        be_bytes(x / 256, (n - 1) as nat).push((x % 256) as u8)
    }
}

/// The value of the first `n` bytes of `s`, most significant first.
pub open spec fn be_value(s: Seq<u8>, n: nat) -> nat
    decreases n,
{
    if n == 0 {
        0
    } else {
        be_value(s, (n - 1) as nat) * 256 + s[n - 1] as nat
    }
}

pub(crate) proof fn lemma_be_bytes_len(x: nat, n: nat)
    ensures
        be_bytes(x, n).len() == n,
    decreases n,
{
    if n > 0 {
        lemma_be_bytes_len(x / 256, (n - 1) as nat);
    }
}

proof fn lemma_be_value_prefix(s: Seq<u8>, t: Seq<u8>, n: nat)
    requires
        n <= s.len(),
    ensures
        be_value(s + t, n) == be_value(s, n),
    decreases n,
{
    if n > 0 {
        lemma_be_value_prefix(s, t, (n - 1) as nat);
        assert((s + t)[n - 1] == s[n - 1]);
    }
}

/// Reading `n` bytes back gives the value modulo `256^n`.
pub proof fn lemma_be_roundtrip(x: nat, n: nat)
    ensures
        be_value(be_bytes(x, n), n) == x % pow256(n),
    decreases n,
{
    if n > 0 {
        let n1 = (n - 1) as nat;
        let t = be_bytes(x / 256, n1);
        lemma_be_bytes_len(x / 256, n1);
        lemma_be_roundtrip(x / 256, n1);
        lemma_be_value_prefix(t, seq![(x % 256) as u8], n1);
        assert(t.push((x % 256) as u8) == t + seq![(x % 256) as u8]);
        assert(be_bytes(x, n)[n - 1] == (x % 256) as u8);
        lemma_pow256_positive(n1);
        let q = x / 256;
        let p = pow256(n1);
        assert((q % p) * 256 + x % 256 == x % (256 * p)) by (nonlinear_arith)
            requires
                p > 0,
                q == x / 256,
        {
            vstd::arithmetic::div_mod::lemma_breakdown(x as int, 256, p as int);
        }
    }
}

proof fn lemma_pow256_positive(n: nat)
    ensures
        pow256(n) > 0,
    decreases n,
{
    if n > 0 {
        lemma_pow256_positive((n - 1) as nat);
    }
}

proof fn lemma_be_value_bound(s: Seq<u8>, n: nat)
    ensures
        be_value(s, n) < pow256(n),
    decreases n,
{
    if n > 0 {
        let n1 = (n - 1) as nat;
        lemma_be_value_bound(s, n1);
        let v = be_value(s, n1);
        let b = s[n - 1] as nat;
        assert(v * 256 + b < 256 * pow256(n1)) by (nonlinear_arith)
            requires
                v < pow256(n1),
                b < 256,
        ;
    }
}

/// Appends the last `n` bytes of `x`, most significant first.
fn put_be(buf: &mut Vec<u8>, x: u64, n: u32)
    requires
        n <= 8,
    ensures
        final(buf)@ == old(buf)@ + be_bytes(x as nat, n as nat),
    decreases n,
{
    if n > 0 {
        put_be(buf, x / 256, n - 1);
        let ghost mid = buf@;
        buf.push((x % 256) as u8);
        assert(buf@ == old(buf)@ + be_bytes(x as nat, n as nat));
    }
}

/// Reads `n` bytes from the front of `buf`, most significant first.
fn get_be(buf: &[u8], n: usize) -> (r: u64)
    requires
        n <= 8,
        n <= buf@.len(),
    ensures
        r == be_value(buf@, n as nat),
{
    let mut acc: u64 = 0;
    let mut k: usize = 0;
    proof {
        assert(pow256(8) == 0x1_0000_0000_0000_0000) by {
            reveal_with_fuel(pow256, 9);
        }
    }
    while k < n
        invariant
            k <= n <= 8,
            n <= buf@.len(),
            acc == be_value(buf@, k as nat),
            pow256(8) == 0x1_0000_0000_0000_0000,
        decreases n - k,
    {
        proof {
            lemma_be_value_bound(buf@, (k + 1) as nat);
            lemma_pow256_monotonic((k + 1) as nat, 8);
        }
        acc = acc * 256 + buf[k] as u64;
        k = k + 1;
    }
    acc
}

proof fn lemma_pow256_monotonic(i: nat, j: nat)
    requires
        i <= j,
    ensures
        pow256(i) <= pow256(j),
    decreases j,
{
    if j > i {
        lemma_pow256_monotonic(i, (j - 1) as nat);
        lemma_pow256_positive((j - 1) as nat);
    }
}


impl Encode for u8 {
    /// Appends the 1 bytes of this value, most significant first.
    fn encode(&self, buf: &mut Vec<u8>) -> (r: Result<(), PacketError>)
        ensures
            r == Ok::<(), PacketError>(()),
            final(buf)@ == old(buf)@ + be_bytes(*self as nat, 1),
    {
        put_be(buf, *self as u64, 1);
        Ok(())
    }
}

impl Decode for u8 {
    open spec fn decodable(buf: Seq<u8>) -> bool {
        buf.len() >= 1
    }

    open spec fn decoded(buf: Seq<u8>) -> Result<(u8, usize), PacketError> {
        Ok::<(u8, usize), PacketError>((be_value(buf, 1) as u8, 1))
    }

    /// Reads 1 bytes, most significant first.
    fn decode(buf: &[u8]) -> (r: Result<(u8, usize), PacketError>)
        ensures
            r == Ok::<(u8, usize), PacketError>((be_value(buf@, 1) as u8, 1)),
    {
        let v = get_be(buf, 1);
        Ok((v as u8, 1))
    }
}

impl Encode for u16 {
    /// Appends the 2 bytes of this value, most significant first.
    fn encode(&self, buf: &mut Vec<u8>) -> (r: Result<(), PacketError>)
        ensures
            r == Ok::<(), PacketError>(()),
            final(buf)@ == old(buf)@ + be_bytes(*self as nat, 2),
    {
        put_be(buf, *self as u64, 2);
        Ok(())
    }
}

impl Decode for u16 {
    open spec fn decodable(buf: Seq<u8>) -> bool {
        buf.len() >= 2
    }

    open spec fn decoded(buf: Seq<u8>) -> Result<(u16, usize), PacketError> {
        Ok::<(u16, usize), PacketError>((be_value(buf, 2) as u16, 2))
    }

    /// Reads 2 bytes, most significant first.
    fn decode(buf: &[u8]) -> (r: Result<(u16, usize), PacketError>)
        ensures
            r == Ok::<(u16, usize), PacketError>((be_value(buf@, 2) as u16, 2)),
    {
        let v = get_be(buf, 2);
        Ok((v as u16, 2))
    }
}

impl Encode for u32 {
    /// Appends the 4 bytes of this value, most significant first.
    fn encode(&self, buf: &mut Vec<u8>) -> (r: Result<(), PacketError>)
        ensures
            r == Ok::<(), PacketError>(()),
            final(buf)@ == old(buf)@ + be_bytes(*self as nat, 4),
    {
        put_be(buf, *self as u64, 4);
        Ok(())
    }
}

impl Decode for u32 {
    open spec fn decodable(buf: Seq<u8>) -> bool {
        buf.len() >= 4
    }

    open spec fn decoded(buf: Seq<u8>) -> Result<(u32, usize), PacketError> {
        Ok::<(u32, usize), PacketError>((be_value(buf, 4) as u32, 4))
    }

    /// Reads 4 bytes, most significant first.
    fn decode(buf: &[u8]) -> (r: Result<(u32, usize), PacketError>)
        ensures
            r == Ok::<(u32, usize), PacketError>((be_value(buf@, 4) as u32, 4)),
    {
        let v = get_be(buf, 4);
        Ok((v as u32, 4))
    }
}

impl Encode for u64 {
    /// Appends the 8 bytes of this value, most significant first.
    fn encode(&self, buf: &mut Vec<u8>) -> (r: Result<(), PacketError>)
        ensures
            r == Ok::<(), PacketError>(()),
            final(buf)@ == old(buf)@ + be_bytes(*self as nat, 8),
    {
        put_be(buf, *self as u64, 8);
        Ok(())
    }
}

impl Decode for u64 {
    open spec fn decodable(buf: Seq<u8>) -> bool {
        buf.len() >= 8
    }

    open spec fn decoded(buf: Seq<u8>) -> Result<(u64, usize), PacketError> {
        Ok::<(u64, usize), PacketError>((be_value(buf, 8) as u64, 8))
    }

    /// Reads 8 bytes, most significant first.
    fn decode(buf: &[u8]) -> (r: Result<(u64, usize), PacketError>)
        ensures
            r == Ok::<(u64, usize), PacketError>((be_value(buf@, 8) as u64, 8)),
    {
        let v = get_be(buf, 8);
        Ok((v as u64, 8))
    }
}

impl Encode for i8 {
    /// Appends the 1 bytes of this value, most significant first.
    fn encode(&self, buf: &mut Vec<u8>) -> (r: Result<(), PacketError>)
        ensures
            r == Ok::<(), PacketError>(()),
            final(buf)@ == old(buf)@ + be_bytes((*self as u8) as nat, 1),
    {
        put_be(buf, (*self as u8) as u64, 1);
        Ok(())
    }
}

impl Decode for i8 {
    open spec fn decodable(buf: Seq<u8>) -> bool {
        buf.len() >= 1
    }

    open spec fn decoded(buf: Seq<u8>) -> Result<(i8, usize), PacketError> {
        Ok::<(i8, usize), PacketError>(((be_value(buf, 1) as u8) as i8, 1))
    }

    /// Reads 1 bytes, most significant first.
    fn decode(buf: &[u8]) -> (r: Result<(i8, usize), PacketError>)
        ensures
            r == Ok::<(i8, usize), PacketError>(((be_value(buf@, 1) as u8) as i8, 1)),
    {
        let v = get_be(buf, 1);
        Ok(((v as u8) as i8, 1))
    }
}

impl Encode for i16 {
    /// Appends the 2 bytes of this value, most significant first.
    fn encode(&self, buf: &mut Vec<u8>) -> (r: Result<(), PacketError>)
        ensures
            r == Ok::<(), PacketError>(()),
            final(buf)@ == old(buf)@ + be_bytes((*self as u16) as nat, 2),
    {
        put_be(buf, (*self as u16) as u64, 2);
        Ok(())
    }
}

impl Decode for i16 {
    open spec fn decodable(buf: Seq<u8>) -> bool {
        buf.len() >= 2
    }

    open spec fn decoded(buf: Seq<u8>) -> Result<(i16, usize), PacketError> {
        Ok::<(i16, usize), PacketError>(((be_value(buf, 2) as u16) as i16, 2))
    }

    /// Reads 2 bytes, most significant first.
    fn decode(buf: &[u8]) -> (r: Result<(i16, usize), PacketError>)
        ensures
            r == Ok::<(i16, usize), PacketError>(((be_value(buf@, 2) as u16) as i16, 2)),
    {
        let v = get_be(buf, 2);
        Ok(((v as u16) as i16, 2))
    }
}

impl Encode for i32 {
    /// Appends the 4 bytes of this value, most significant first.
    fn encode(&self, buf: &mut Vec<u8>) -> (r: Result<(), PacketError>)
        ensures
            r == Ok::<(), PacketError>(()),
            final(buf)@ == old(buf)@ + be_bytes((*self as u32) as nat, 4),
    {
        put_be(buf, (*self as u32) as u64, 4);
        Ok(())
    }
}

impl Decode for i32 {
    open spec fn decodable(buf: Seq<u8>) -> bool {
        buf.len() >= 4
    }

    open spec fn decoded(buf: Seq<u8>) -> Result<(i32, usize), PacketError> {
        Ok::<(i32, usize), PacketError>(((be_value(buf, 4) as u32) as i32, 4))
    }

    /// Reads 4 bytes, most significant first.
    fn decode(buf: &[u8]) -> (r: Result<(i32, usize), PacketError>)
        ensures
            r == Ok::<(i32, usize), PacketError>(((be_value(buf@, 4) as u32) as i32, 4)),
    {
        let v = get_be(buf, 4);
        Ok(((v as u32) as i32, 4))
    }
}

impl Encode for i64 {
    /// Appends the 8 bytes of this value, most significant first.
    fn encode(&self, buf: &mut Vec<u8>) -> (r: Result<(), PacketError>)
        ensures
            r == Ok::<(), PacketError>(()),
            final(buf)@ == old(buf)@ + be_bytes((*self as u64) as nat, 8),
    {
        put_be(buf, (*self as u64) as u64, 8);
        Ok(())
    }
}

impl Decode for i64 {
    open spec fn decodable(buf: Seq<u8>) -> bool {
        buf.len() >= 8
    }

    open spec fn decoded(buf: Seq<u8>) -> Result<(i64, usize), PacketError> {
        Ok::<(i64, usize), PacketError>(((be_value(buf, 8) as u64) as i64, 8))
    }

    /// Reads 8 bytes, most significant first.
    fn decode(buf: &[u8]) -> (r: Result<(i64, usize), PacketError>)
        ensures
            r == Ok::<(i64, usize), PacketError>(((be_value(buf@, 8) as u64) as i64, 8)),
    {
        let v = get_be(buf, 8);
        Ok(((v as u64) as i64, 8))
    }
}

impl Encode for bool {
    /// Appends `1` for `true` and `0` for `false`.
    fn encode(&self, buf: &mut Vec<u8>) -> (r: Result<(), PacketError>)
        ensures
            r == Ok::<(), PacketError>(()),
            final(buf)@ == old(buf)@.push(if *self {
                1u8
            } else {
                0u8
            }),
    {
        buf.push(if *self {
            1
        } else {
            0
        });
        Ok(())
    }
}

impl Decode for bool {
    open spec fn decodable(buf: Seq<u8>) -> bool {
        buf.len() >= 1
    }

    open spec fn decoded(buf: Seq<u8>) -> Result<(bool, usize), PacketError> {
        Ok::<(bool, usize), PacketError>((buf[0] != 0, 1))
    }

    /// Reads a byte: any byte but `0` is `true`.
    fn decode(buf: &[u8]) -> (r: Result<(bool, usize), PacketError>)
        ensures
            r == Ok::<(bool, usize), PacketError>((buf@[0] != 0, 1)),
    {
        Ok((buf[0] != 0, 1))
    }
}

impl Encode for Variable<u8> {
    /// Appends this value as a variable-length integer.
    fn encode(&self, buf: &mut Vec<u8>) -> (r: Result<(), PacketError>)
        ensures
            r == Ok::<(), PacketError>(()),
            final(buf)@ == old(buf)@ + var_bytes(self.0 as nat),
    {
        write_var(buf, self.0 as u64);
        Ok(())
    }
}

impl Decode for Variable<u8> {
    open spec fn decodable(buf: Seq<u8>) -> bool {
        !(var_read(buf, 8) is RunsOut)
    }

    open spec fn decoded(buf: Seq<u8>) -> Result<(Variable<u8>, usize), PacketError> {
        match var_read(buf, 8) {
            VarRead::Value { value, len } => Ok::<(Variable<u8>, usize), PacketError>(
                    (Variable(value as u8), len as usize),
                ),
            _ => Err::<(Variable<u8>, usize), PacketError>(PacketError::VarInt(VarIntError::TooLarge)),
        }
    }

    /// Reads a variable-length integer.
    fn decode(buf: &[u8]) -> (r: Result<(Variable<u8>, usize), PacketError>)
        ensures
            match var_read(buf@, 8) {
                VarRead::Value { value, len } => r == Ok::<(Variable<u8>, usize), PacketError>(
                    (Variable(value as u8), len as usize),
                ),
                VarRead::TooLarge => r == Err::<(Variable<u8>, usize), PacketError>(
                    PacketError::VarInt(VarIntError::TooLarge),
                ),
                VarRead::RunsOut => false,
            },
    {
        match read_var(buf, 8) {
            Ok((v, n)) => Ok((Variable(v as u8), n)),
            Err(e) => Err(PacketError::VarInt(e)),
        }
    }
}

impl Encode for Variable<u16> {
    /// Appends this value as a variable-length integer.
    fn encode(&self, buf: &mut Vec<u8>) -> (r: Result<(), PacketError>)
        ensures
            r == Ok::<(), PacketError>(()),
            final(buf)@ == old(buf)@ + var_bytes(self.0 as nat),
    {
        write_var(buf, self.0 as u64);
        Ok(())
    }
}

impl Decode for Variable<u16> {
    open spec fn decodable(buf: Seq<u8>) -> bool {
        !(var_read(buf, 16) is RunsOut)
    }

    open spec fn decoded(buf: Seq<u8>) -> Result<(Variable<u16>, usize), PacketError> {
        match var_read(buf, 16) {
            VarRead::Value { value, len } => Ok::<(Variable<u16>, usize), PacketError>(
                    (Variable(value as u16), len as usize),
                ),
            _ => Err::<(Variable<u16>, usize), PacketError>(PacketError::VarInt(VarIntError::TooLarge)),
        }
    }

    /// Reads a variable-length integer.
    fn decode(buf: &[u8]) -> (r: Result<(Variable<u16>, usize), PacketError>)
        ensures
            match var_read(buf@, 16) {
                VarRead::Value { value, len } => r == Ok::<(Variable<u16>, usize), PacketError>(
                    (Variable(value as u16), len as usize),
                ),
                VarRead::TooLarge => r == Err::<(Variable<u16>, usize), PacketError>(
                    PacketError::VarInt(VarIntError::TooLarge),
                ),
                VarRead::RunsOut => false,
            },
    {
        match read_var(buf, 16) {
            Ok((v, n)) => Ok((Variable(v as u16), n)),
            Err(e) => Err(PacketError::VarInt(e)),
        }
    }
}

impl Encode for Variable<u32> {
    /// Appends this value as a variable-length integer.
    fn encode(&self, buf: &mut Vec<u8>) -> (r: Result<(), PacketError>)
        ensures
            r == Ok::<(), PacketError>(()),
            final(buf)@ == old(buf)@ + var_bytes(self.0 as nat),
    {
        write_var(buf, self.0 as u64);
        Ok(())
    }
}

impl Decode for Variable<u32> {
    open spec fn decodable(buf: Seq<u8>) -> bool {
        !(var_read(buf, 32) is RunsOut)
    }

    open spec fn decoded(buf: Seq<u8>) -> Result<(Variable<u32>, usize), PacketError> {
        match var_read(buf, 32) {
            VarRead::Value { value, len } => Ok::<(Variable<u32>, usize), PacketError>(
                    (Variable(value as u32), len as usize),
                ),
            _ => Err::<(Variable<u32>, usize), PacketError>(PacketError::VarInt(VarIntError::TooLarge)),
        }
    }

    /// Reads a variable-length integer.
    fn decode(buf: &[u8]) -> (r: Result<(Variable<u32>, usize), PacketError>)
        ensures
            match var_read(buf@, 32) {
                VarRead::Value { value, len } => r == Ok::<(Variable<u32>, usize), PacketError>(
                    (Variable(value as u32), len as usize),
                ),
                VarRead::TooLarge => r == Err::<(Variable<u32>, usize), PacketError>(
                    PacketError::VarInt(VarIntError::TooLarge),
                ),
                VarRead::RunsOut => false,
            },
    {
        match read_var(buf, 32) {
            Ok((v, n)) => Ok((Variable(v as u32), n)),
            Err(e) => Err(PacketError::VarInt(e)),
        }
    }
}

impl Encode for Variable<u64> {
    /// Appends this value as a variable-length integer.
    fn encode(&self, buf: &mut Vec<u8>) -> (r: Result<(), PacketError>)
        ensures
            r == Ok::<(), PacketError>(()),
            final(buf)@ == old(buf)@ + var_bytes(self.0 as nat),
    {
        write_var(buf, self.0 as u64);
        Ok(())
    }
}

impl Decode for Variable<u64> {
    open spec fn decodable(buf: Seq<u8>) -> bool {
        !(var_read(buf, 64) is RunsOut)
    }

    open spec fn decoded(buf: Seq<u8>) -> Result<(Variable<u64>, usize), PacketError> {
        match var_read(buf, 64) {
            VarRead::Value { value, len } => Ok::<(Variable<u64>, usize), PacketError>(
                    (Variable(value as u64), len as usize),
                ),
            _ => Err::<(Variable<u64>, usize), PacketError>(PacketError::VarInt(VarIntError::TooLarge)),
        }
    }

    /// Reads a variable-length integer.
    fn decode(buf: &[u8]) -> (r: Result<(Variable<u64>, usize), PacketError>)
        ensures
            match var_read(buf@, 64) {
                VarRead::Value { value, len } => r == Ok::<(Variable<u64>, usize), PacketError>(
                    (Variable(value as u64), len as usize),
                ),
                VarRead::TooLarge => r == Err::<(Variable<u64>, usize), PacketError>(
                    PacketError::VarInt(VarIntError::TooLarge),
                ),
                VarRead::RunsOut => false,
            },
    {
        match read_var(buf, 64) {
            Ok((v, n)) => Ok((Variable(v as u64), n)),
            Err(e) => Err(PacketError::VarInt(e)),
        }
    }
}

impl Encode for Variable<i8> {
    /// Appends this value as a variable-length integer.
    fn encode(&self, buf: &mut Vec<u8>) -> (r: Result<(), PacketError>)
        ensures
            r == Ok::<(), PacketError>(()),
            final(buf)@ == old(buf)@ + var_bytes((self.0 as u8) as nat),
    {
        write_var(buf, (self.0 as u8) as u64);
        Ok(())
    }
}

impl Decode for Variable<i8> {
    open spec fn decodable(buf: Seq<u8>) -> bool {
        !(var_read(buf, 8) is RunsOut)
    }

    open spec fn decoded(buf: Seq<u8>) -> Result<(Variable<i8>, usize), PacketError> {
        match var_read(buf, 8) {
            VarRead::Value { value, len } => Ok::<(Variable<i8>, usize), PacketError>(
                    (Variable((value as u8) as i8), len as usize),
                ),
            _ => Err::<(Variable<i8>, usize), PacketError>(PacketError::VarInt(VarIntError::TooLarge)),
        }
    }

    /// Reads a variable-length integer.
    fn decode(buf: &[u8]) -> (r: Result<(Variable<i8>, usize), PacketError>)
        ensures
            match var_read(buf@, 8) {
                VarRead::Value { value, len } => r == Ok::<(Variable<i8>, usize), PacketError>(
                    (Variable((value as u8) as i8), len as usize),
                ),
                VarRead::TooLarge => r == Err::<(Variable<i8>, usize), PacketError>(
                    PacketError::VarInt(VarIntError::TooLarge),
                ),
                VarRead::RunsOut => false,
            },
    {
        match read_var(buf, 8) {
            Ok((v, n)) => Ok((Variable((v as u8) as i8), n)),
            Err(e) => Err(PacketError::VarInt(e)),
        }
    }
}

impl Encode for Variable<i16> {
    /// Appends this value as a variable-length integer.
    fn encode(&self, buf: &mut Vec<u8>) -> (r: Result<(), PacketError>)
        ensures
            r == Ok::<(), PacketError>(()),
            final(buf)@ == old(buf)@ + var_bytes((self.0 as u16) as nat),
    {
        write_var(buf, (self.0 as u16) as u64);
        Ok(())
    }
}

impl Decode for Variable<i16> {
    open spec fn decodable(buf: Seq<u8>) -> bool {
        !(var_read(buf, 16) is RunsOut)
    }

    open spec fn decoded(buf: Seq<u8>) -> Result<(Variable<i16>, usize), PacketError> {
        match var_read(buf, 16) {
            VarRead::Value { value, len } => Ok::<(Variable<i16>, usize), PacketError>(
                    (Variable((value as u16) as i16), len as usize),
                ),
            _ => Err::<(Variable<i16>, usize), PacketError>(PacketError::VarInt(VarIntError::TooLarge)),
        }
    }

    /// Reads a variable-length integer.
    fn decode(buf: &[u8]) -> (r: Result<(Variable<i16>, usize), PacketError>)
        ensures
            match var_read(buf@, 16) {
                VarRead::Value { value, len } => r == Ok::<(Variable<i16>, usize), PacketError>(
                    (Variable((value as u16) as i16), len as usize),
                ),
                VarRead::TooLarge => r == Err::<(Variable<i16>, usize), PacketError>(
                    PacketError::VarInt(VarIntError::TooLarge),
                ),
                VarRead::RunsOut => false,
            },
    {
        match read_var(buf, 16) {
            Ok((v, n)) => Ok((Variable((v as u16) as i16), n)),
            Err(e) => Err(PacketError::VarInt(e)),
        }
    }
}

impl Encode for Variable<i32> {
    /// Appends this value as a variable-length integer.
    fn encode(&self, buf: &mut Vec<u8>) -> (r: Result<(), PacketError>)
        ensures
            r == Ok::<(), PacketError>(()),
            final(buf)@ == old(buf)@ + var_bytes((self.0 as u32) as nat),
    {
        write_var(buf, (self.0 as u32) as u64);
        Ok(())
    }
}

impl Decode for Variable<i32> {
    open spec fn decodable(buf: Seq<u8>) -> bool {
        !(var_read(buf, 32) is RunsOut)
    }

    open spec fn decoded(buf: Seq<u8>) -> Result<(Variable<i32>, usize), PacketError> {
        match var_read(buf, 32) {
            VarRead::Value { value, len } => Ok::<(Variable<i32>, usize), PacketError>(
                    (Variable((value as u32) as i32), len as usize),
                ),
            _ => Err::<(Variable<i32>, usize), PacketError>(PacketError::VarInt(VarIntError::TooLarge)),
        }
    }

    /// Reads a variable-length integer.
    fn decode(buf: &[u8]) -> (r: Result<(Variable<i32>, usize), PacketError>)
        ensures
            match var_read(buf@, 32) {
                VarRead::Value { value, len } => r == Ok::<(Variable<i32>, usize), PacketError>(
                    (Variable((value as u32) as i32), len as usize),
                ),
                VarRead::TooLarge => r == Err::<(Variable<i32>, usize), PacketError>(
                    PacketError::VarInt(VarIntError::TooLarge),
                ),
                VarRead::RunsOut => false,
            },
    {
        match read_var(buf, 32) {
            Ok((v, n)) => Ok((Variable((v as u32) as i32), n)),
            Err(e) => Err(PacketError::VarInt(e)),
        }
    }
}

impl Encode for Variable<i64> {
    /// Appends this value as a variable-length integer.
    fn encode(&self, buf: &mut Vec<u8>) -> (r: Result<(), PacketError>)
        ensures
            r == Ok::<(), PacketError>(()),
            final(buf)@ == old(buf)@ + var_bytes((self.0 as u64) as nat),
    {
        write_var(buf, (self.0 as u64) as u64);
        Ok(())
    }
}

impl Decode for Variable<i64> {
    open spec fn decodable(buf: Seq<u8>) -> bool {
        !(var_read(buf, 64) is RunsOut)
    }

    open spec fn decoded(buf: Seq<u8>) -> Result<(Variable<i64>, usize), PacketError> {
        match var_read(buf, 64) {
            VarRead::Value { value, len } => Ok::<(Variable<i64>, usize), PacketError>(
                    (Variable((value as u64) as i64), len as usize),
                ),
            _ => Err::<(Variable<i64>, usize), PacketError>(PacketError::VarInt(VarIntError::TooLarge)),
        }
    }

    /// Reads a variable-length integer.
    fn decode(buf: &[u8]) -> (r: Result<(Variable<i64>, usize), PacketError>)
        ensures
            match var_read(buf@, 64) {
                VarRead::Value { value, len } => r == Ok::<(Variable<i64>, usize), PacketError>(
                    (Variable((value as u64) as i64), len as usize),
                ),
                VarRead::TooLarge => r == Err::<(Variable<i64>, usize), PacketError>(
                    PacketError::VarInt(VarIntError::TooLarge),
                ),
                VarRead::RunsOut => false,
            },
    {
        match read_var(buf, 64) {
            Ok((v, n)) => Ok((Variable((v as u64) as i64), n)),
            Err(e) => Err(PacketError::VarInt(e)),
        }
    }
}

} // verus!
