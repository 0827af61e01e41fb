//! Integer positions of blocks in a three-dimensional volume, and their
//! packing into a single `i64`.
//!
//! A packed position holds the x-coordinate in its 26 most significant
//! bits, then the z-coordinate in 26 bits, then the y-coordinate in the 12
//! least significant bits, each as a two's complement field.

use vstd::prelude::*;
use vstd::string::*;

use crate::packet::{be_bytes, be_value, Decode, Encode, PacketError};

verus! {

/// A position of a block in a three-dimensional volume.
///
/// The position is integer-valued.
#[derive(Debug, Clone, Copy, PartialEq, Eq, Hash, Structural)]
pub struct BlockPos {
    /// The x-coordinate.
    pub x: i32,
    /// The y-coordinate.
    pub y: i32,
    /// The z-coordinate.
    pub z: i32,
}

/// The packed form of the coordinates, as the code writes it: each
/// coordinate masked to its field and shifted into place.
pub open spec fn pack(x: i32, y: i32, z: i32) -> i64 {
    (((x as i64) & 0x3FF_FFFF) << 38u64) | ((y as i64) & 0xFFF) | (((z as i64) & 0x3FF_FFFF)
        << 12u64)
}

/// The x-coordinate held in a packed position: its 26 most significant bits,
/// sign-extended.
pub open spec fn unpack_x(l: i64) -> i32 {
    (l >> 38u64) as i32
}

/// The y-coordinate held in a packed position: its 12 least significant
/// bits, sign-extended.
pub open spec fn unpack_y(l: i64) -> i32 {
    ((l << 52u64) >> 52u64) as i32
}

/// The z-coordinate held in a packed position: bits 12 to 37, sign-extended.
pub open spec fn unpack_z(l: i64) -> i32 {
    ((l << 26u64) >> 38u64) as i32
}

/// Whether each coordinate fits in its field of a packed position: x and z
/// in 26 bits, y in 12 bits, as two's complement values.
pub open spec fn packable(x: i32, y: i32, z: i32) -> bool {
    &&& -0x200_0000 <= x < 0x200_0000
    &&& -0x800 <= y < 0x800
    &&& -0x200_0000 <= z < 0x200_0000
}

impl BlockPos {
    /// The origin of the coordinate system.
    pub fn origin() -> (r: BlockPos)
        ensures
            r.x == 0 && r.y == 0 && r.z == 0,
    {
        BlockPos { x: 0, y: 0, z: 0 }
    }

    /// Creates a new block position.
    pub fn new(x: i32, y: i32, z: i32) -> (r: BlockPos)
        ensures
            r.x == x,
            r.y == y,
            r.z == z,
    {
        BlockPos { x, y, z }
    }

    /// Returns the x-coordinate of the position.
    pub fn x(&self) -> (r: i32)
        ensures
            r == self.x,
    {
        self.x
    }

    /// Returns the y-coordinate of the position.
    pub fn y(&self) -> (r: i32)
        ensures
            r == self.y,
    {
        self.y
    }

    /// Returns the z-coordinate of the position.
    pub fn z(&self) -> (r: i32)
        ensures
            r == self.z,
    {
        self.z
    }

}

impl From<BlockPos> for i64 {
    /// Packs the position. Coordinates that do not fit in their field keep
    /// only their low bits.
    fn from(pos: BlockPos) -> (r: i64)
        ensures
            r == pack(pos.x, pos.y, pos.z),
    {
        ((pos.x as i64 & 0x3FF_FFFF) << 38u64) | (pos.y as i64 & 0xFFF) | ((pos.z as i64
            & 0x3FF_FFFF) << 12u64)
    }
}

impl vstd::std_specs::convert::FromSpecImpl<BlockPos> for i64 {
    open spec fn obeys_from_spec() -> bool {
        true
    }

    open spec fn from_spec(v: BlockPos) -> i64 {
        pack(v.x, v.y, v.z)
    }
}

impl From<i64> for BlockPos {
    /// Unpacks a position.
    fn from(l: i64) -> (r: BlockPos)
        ensures
            r == (BlockPos { x: unpack_x(l), y: unpack_y(l), z: unpack_z(l) }),
    {
        BlockPos {
            x: (l >> 38u64) as i32,
            y: ((l << 52u64) >> 52u64) as i32,
            z: ((l << 26u64) >> 38u64) as i32,
        }
    }
}

impl vstd::std_specs::convert::FromSpecImpl<i64> for BlockPos {
    open spec fn obeys_from_spec() -> bool {
        true
    }

    open spec fn from_spec(v: i64) -> BlockPos {
        BlockPos { x: unpack_x(v), y: unpack_y(v), z: unpack_z(v) }
    }
}

impl From<(i32, i32, i32)> for BlockPos {
    fn from(t: (i32, i32, i32)) -> (r: BlockPos)
        ensures
            r == (BlockPos { x: t.0, y: t.1, z: t.2 }),
    {
        BlockPos::new(t.0, t.1, t.2)
    }
}

impl vstd::std_specs::convert::FromSpecImpl<(i32, i32, i32)> for BlockPos {
    open spec fn obeys_from_spec() -> bool {
        true
    }

    open spec fn from_spec(v: (i32, i32, i32)) -> BlockPos {
        BlockPos { x: v.0, y: v.1, z: v.2 }
    }
}

impl From<BlockPos> for (i32, i32, i32) {
    fn from(pos: BlockPos) -> (r: (i32, i32, i32))
        ensures
            r == (pos.x, pos.y, pos.z),
    {
        (pos.x(), pos.y(), pos.z())
    }
}

impl vstd::std_specs::convert::FromSpecImpl<BlockPos> for (i32, i32, i32) {
    open spec fn obeys_from_spec() -> bool {
        true
    }

    open spec fn from_spec(v: BlockPos) -> (i32, i32, i32) {
        (v.x, v.y, v.z)
    }
}

/// Whether `a + b` fits in an `i32` for each coordinate.
pub open spec fn add_fits(a: BlockPos, b: BlockPos) -> bool {
    &&& i32::MIN <= a.x + b.x <= i32::MAX
    &&& i32::MIN <= a.y + b.y <= i32::MAX
    &&& i32::MIN <= a.z + b.z <= i32::MAX
}

/// Whether `a - b` fits in an `i32` for each coordinate.
pub open spec fn sub_fits(a: BlockPos, b: BlockPos) -> bool {
    &&& i32::MIN <= a.x - b.x <= i32::MAX
    &&& i32::MIN <= a.y - b.y <= i32::MAX
    &&& i32::MIN <= a.z - b.z <= i32::MAX
}

impl std::ops::Add<BlockPos> for BlockPos {
    type Output = BlockPos;

    /// Adds the positions coordinate by coordinate.
    fn add(self, rhs: BlockPos) -> (r: BlockPos) {
        BlockPos { x: self.x + rhs.x, y: self.y + rhs.y, z: self.z + rhs.z }
    }
}

impl vstd::std_specs::ops::AddSpecImpl<BlockPos> for BlockPos {
    open spec fn obeys_add_spec() -> bool {
        true
    }

    open spec fn add_req(self, rhs: BlockPos) -> bool {
        add_fits(self, rhs)
    }

    open spec fn add_spec(self, rhs: BlockPos) -> BlockPos {
        wrapping_sum(self, rhs)
    }
}

/// The coordinates of `a + b`, each wrapped to an `i32`.
pub open spec fn wrapping_sum(a: BlockPos, b: BlockPos) -> BlockPos {
    BlockPos {
        x: a.x.wrapping_add(b.x),
        y: a.y.wrapping_add(b.y),
        z: a.z.wrapping_add(b.z),
    }
}

/// The coordinates of `a - b`, each wrapped to an `i32`.
pub open spec fn wrapping_difference(a: BlockPos, b: BlockPos) -> BlockPos {
    BlockPos {
        x: a.x.wrapping_sub(b.x),
        y: a.y.wrapping_sub(b.y),
        z: a.z.wrapping_sub(b.z),
    }
}

impl std::ops::AddAssign<BlockPos> for BlockPos {
    /// Adds the position coordinate by coordinate, wrapping on overflow.
    fn add_assign(&mut self, rhs: BlockPos)
        ensures
            *final(self) == wrapping_sum(*old(self), rhs),
    {
        self.x = self.x.wrapping_add(rhs.x);
        self.y = self.y.wrapping_add(rhs.y);
        self.z = self.z.wrapping_add(rhs.z);
    }
}

impl std::ops::Sub<BlockPos> for BlockPos {
    type Output = BlockPos;

    /// Subtracts the positions coordinate by coordinate.
    fn sub(self, rhs: BlockPos) -> (r: BlockPos) {
        BlockPos { x: self.x - rhs.x, y: self.y - rhs.y, z: self.z - rhs.z }
    }
}

impl std::ops::SubAssign<BlockPos> for BlockPos {
    /// Subtracts the position coordinate by coordinate, wrapping on overflow.
    fn sub_assign(&mut self, rhs: BlockPos)
        ensures
            *final(self) == wrapping_difference(*old(self), rhs),
    {
        self.x = self.x.wrapping_sub(rhs.x);
        self.y = self.y.wrapping_sub(rhs.y);
        self.z = self.z.wrapping_sub(rhs.z);
    }
}

impl vstd::std_specs::ops::SubSpecImpl<BlockPos> for BlockPos {
    open spec fn obeys_sub_spec() -> bool {
        true
    }

    open spec fn sub_req(self, rhs: BlockPos) -> bool {
        sub_fits(self, rhs)
    }

    open spec fn sub_spec(self, rhs: BlockPos) -> BlockPos {
        wrapping_difference(self, rhs)
    }
}

impl Encode for BlockPos {
    /// Appends the packed position as 8 bytes, most significant first.
    fn encode(&self, buf: &mut Vec<u8>) -> (r: Result<(), PacketError>)
        ensures
            r == Ok::<(), PacketError>(()),
            final(buf)@ == old(buf)@ + be_bytes((pack(self.x, self.y, self.z) as u64) as nat, 8),
    {
        let l = i64::from(*self);
        l.encode(buf)
    }
}

impl Decode for BlockPos {
    open spec fn decodable(buf: Seq<u8>) -> bool {
        buf.len() >= 8
    }

    open spec fn decoded(buf: Seq<u8>) -> Result<(BlockPos, usize), PacketError> {
        {
                let l = (be_value(buf, 8) as u64) as i64;
                Ok::<(BlockPos, usize), PacketError>(
                    (BlockPos { x: unpack_x(l), y: unpack_y(l), z: unpack_z(l) }, 8),
                )
            }
    }

    /// Reads a packed position from 8 bytes, most significant first.
    fn decode(buf: &[u8]) -> (r: Result<(BlockPos, usize), PacketError>)
        ensures
            ({
                let l = (be_value(buf@, 8) as u64) as i64;
                r == Ok::<(BlockPos, usize), PacketError>(
                    (BlockPos { x: unpack_x(l), y: unpack_y(l), z: unpack_z(l) }, 8),
                )
            }),
    {
        match i64::decode(buf) {
            Ok((l, n)) => Ok((BlockPos::from(l), n)),
            Err(e) => Err(e),
        }
    }
}

/// A coordinate axis.
#[derive(Debug, Clone, Copy, PartialEq, Eq, Structural)]
pub enum Axis {
    /// The x axis.
    X,
    /// The y axis.
    Y,
    /// The z axis.
    Z,
}

/// Errors of reading a block position from serialized data.
#[derive(Debug, Clone, PartialEq, Eq)]
pub enum PosError {
    /// A sequence ended after this many coordinates.
    InvalidLength(usize),
    /// A field is named after no axis.
    UnknownField(String),
    /// No field gave this coordinate.
    MissingField(Axis),
}

/// The axis a field of a serialized position names: the one its first
/// character names, in either case.
pub open spec fn key_axis(c: char) -> Option<Axis> {
    if c == 'x' || c == 'X' {
        Some(Axis::X)
    } else if c == 'y' || c == 'Y' {
        Some(Axis::Y)
    } else if c == 'z' || c == 'Z' {
        Some(Axis::Z)
    } else {
        None
    }
}

impl BlockPos {
    /// Reads a position from a sequence of three coordinates. Coordinates
    /// after the third are not read.
    pub fn from_seq(coords: &[i32]) -> (r: Result<BlockPos, PosError>)
        ensures
            coords@.len() >= 3 ==> r == Ok::<BlockPos, PosError>(
                BlockPos { x: coords@[0], y: coords@[1], z: coords@[2] },
            ),
            coords@.len() < 3 ==> (r matches Err(PosError::InvalidLength(n)) && n == coords@.len()),
    {
        if coords.len() < 3 {
            return Err(PosError::InvalidLength(coords.len()));
        }
        Ok(BlockPos::new(coords[0], coords[1], coords[2]))
    }
}

/// The coordinates read so far from a map of fields.
#[derive(Debug, Clone, Copy, PartialEq, Eq, Structural)]
pub struct PosFields {
    /// The x-coordinate, once read.
    pub x: Option<i32>,
    /// The y-coordinate, once read.
    pub y: Option<i32>,
    /// The z-coordinate, once read.
    pub z: Option<i32>,
}

impl PosFields {
    /// No coordinate read yet.
    pub fn new() -> (r: PosFields)
        ensures
            r == (PosFields { x: None, y: None, z: None }),
    {
        PosFields { x: None, y: None, z: None }
    }

    /// Reads one field. A field with an empty name is skipped; a later field
    /// for the same axis replaces an earlier one; a field named after no axis
    /// is an error, and leaves the fields read so far unchanged.
    pub fn visit(&mut self, key: &str, value: i32) -> (r: Result<(), PosError>)
        ensures
            key@.len() == 0 ==> r == Ok::<(), PosError>(()) && *final(self) == *old(self),
            key@.len() > 0 ==> match key_axis(key@[0]) {
                Some(Axis::X) => r == Ok::<(), PosError>(()) && *final(self) == (PosFields {
                    x: Some(value),
                    ..*old(self)
                }),
                Some(Axis::Y) => r == Ok::<(), PosError>(()) && *final(self) == (PosFields {
                    y: Some(value),
                    ..*old(self)
                }),
                Some(Axis::Z) => r == Ok::<(), PosError>(()) && *final(self) == (PosFields {
                    z: Some(value),
                    ..*old(self)
                }),
                None => (r matches Err(PosError::UnknownField(s)) && s@ == key@) && *final(self)
                    == *old(self),
            },
    {
        if key.unicode_len() == 0 {
            return Ok(());
        }
        let c = key.get_char(0);
        if c == 'x' || c == 'X' {
            self.x = Some(value);
            Ok(())
        } else if c == 'y' || c == 'Y' {
            self.y = Some(value);
            Ok(())
        } else if c == 'z' || c == 'Z' {
            self.z = Some(value);
            Ok(())
        } else {
            Err(PosError::UnknownField(key.to_owned()))
        }
    }

    /// The position once every coordinate is read; else the first axis, in
    /// the order x, y, z, that no field gave.
    pub fn finish(self) -> (r: Result<BlockPos, PosError>)
        ensures
            self.x is None ==> r == Err::<BlockPos, PosError>(PosError::MissingField(Axis::X)),
            self.x is Some && self.y is None ==> r == Err::<BlockPos, PosError>(
                PosError::MissingField(Axis::Y),
            ),
            self.x is Some && self.y is Some && self.z is None ==> r == Err::<BlockPos, PosError>(
                PosError::MissingField(Axis::Z),
            ),
            self.x is Some && self.y is Some && self.z is Some ==> r == Ok::<BlockPos, PosError>(
                BlockPos { x: self.x->0, y: self.y->0, z: self.z->0 },
            ),
    {
        let x = match self.x {
            Some(x) => x,
            None => return Err(PosError::MissingField(Axis::X)),
        };
        let y = match self.y {
            Some(y) => y,
            None => return Err(PosError::MissingField(Axis::Y)),
        };
        let z = match self.z {
            Some(z) => z,
            None => return Err(PosError::MissingField(Axis::Z)),
        };
        Ok(BlockPos::new(x, y, z))
    }
}

/// Unpacking a packed position gives back every position whose coordinates
/// fit in their fields.
pub proof fn lemma_pos_roundtrip(x: i32, y: i32, z: i32)
    requires
        packable(x, y, z),
    ensures
        unpack_x(pack(x, y, z)) == x,
        unpack_y(pack(x, y, z)) == y,
        unpack_z(pack(x, y, z)) == z,
{
    assert(unpack_x(pack(x, y, z)) == x) by (bit_vector)
        requires
            -0x200_0000 <= x < 0x200_0000,
    ;
    assert(unpack_y(pack(x, y, z)) == y) by (bit_vector)
        requires
            -0x800 <= y < 0x800,
    ;
    assert(unpack_z(pack(x, y, z)) == z) by (bit_vector)
        requires
            -0x200_0000 <= z < 0x200_0000,
    ;
}

/// Packing the coordinates unpacked from any `i64` gives it back, and those
/// coordinates always fit in their fields.
pub proof fn lemma_long_roundtrip(l: i64)
    ensures
        packable(unpack_x(l), unpack_y(l), unpack_z(l)),
        pack(unpack_x(l), unpack_y(l), unpack_z(l)) == l,
{
    assert(pack(unpack_x(l), unpack_y(l), unpack_z(l)) == l) by (bit_vector);
    assert(packable(unpack_x(l), unpack_y(l), unpack_z(l))) by (bit_vector);
}

} // verus!
