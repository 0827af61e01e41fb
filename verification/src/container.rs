//! Paletted containers: a storage of small indices and a palette that maps
//! them to objects, how the palette of a container is chosen from the
//! number of bits its entries take, and how serialized indices are mapped.

use vstd::prelude::*;

use std::marker::PhantomData;

use crate::palette::{
    lemma_position_from, new_accepts, pow2_usize, IndexFromRaw, IndexToRaw, ListEntries, Palette,
    Strategy,
};

verus! {

/// The number of bits needed to write `n`: zero for zero, else one more
/// than for half of it.
pub open spec fn bit_len(n: nat) -> nat
    decreases n,
{
    if n == 0 {
        0
    } else {
        1 + bit_len(n / 2)
    }
}

/// `2^k`.
pub open spec fn pow2(k: nat) -> nat
    decreases k,
{
    if k == 0 {
        1
    } else {
        2 * pow2((k - 1) as nat)
    }
}

/// A number below `2^b` needs at most `b` bits.
proof fn lemma_bit_len_bound(n: nat, b: nat)
    requires
        n < pow2(b),
    ensures
        bit_len(n) <= b,
    decreases b,
{
    if n > 0 && b > 0 {
        lemma_bit_len_bound(n / 2, (b - 1) as nat);
    }
}

/// Returns the number of bits needed to write `n`.
pub fn bits_needed(n: usize) -> (r: u32)
    ensures
        r == bit_len(n as nat),
        r <= 64,
{
    proof {
        assert(pow2(64) == 0x1_0000_0000_0000_0000) by {
            reveal_with_fuel(pow2, 65);
        }
        lemma_bit_len_bound(n as nat, 64);
    }
    let mut k: u32 = 0;
    let mut m: usize = n;
    while m > 0
        invariant
            k + bit_len(m as nat) == bit_len(n as nat),
            bit_len(n as nat) <= 64,
        decreases m,
    {
        m = m / 2;
        k = k + 1;
    }
    k
}

/// Chooses the palette of a container from the number of bits its entries
/// take, and controls how serialized containers are read for the palette.
pub trait ProvidePalette<L> {
    /// The number of bits of each edge of the container's cube of entries.
    const EDGE_BITS: u32;

    /// The strategy and the entry length in bits chosen for the id list and
    /// the number of bits needed for all palette entries.
    spec fn palette_config(list: &L, bits: u32) -> (Strategy, u32);

    /// Returns the strategy and the desired entry length in bits from the
    /// given id list and number of bits needed for all palette entries.
    fn provide_palette_config(list: &L, bits: u32) -> (r: (Strategy, u32))
        ensures
            r == Self::palette_config(list, bits),
    ;

    /// Returns the number of entries of a container: those of a cube whose
    /// edges take `EDGE_BITS` bits.
    fn container_len() -> (r: usize)
        requires
            Self::EDGE_BITS * 3 < usize::BITS,
        ensures
            r == pow2((Self::EDGE_BITS * 3) as nat),
    {
        let k: u32 = Self::EDGE_BITS * 3;
        proof {
            lemma_shift_pow2(k);
        }
        1usize << k
    }

    /// Returns the number of bits entries of the list take in a container
    /// of `len` distinct entries: as many as `len` needs when the chosen
    /// strategy is direct, else the chosen entry length.
    fn bits(list: &L, len: usize) -> (r: u32)
        ensures
            ({
                let i = bit_len(len as nat) as u32;
                r == match Self::palette_config(list, i).0 {
                    Strategy::Direct => i,
                    _ => Self::palette_config(list, i).1,
                }
            }),
    {
        let i = bits_needed(len);
        let config = Self::provide_palette_config(list, i);
        match config.0 {
            Strategy::Direct => i,
            _ => config.1,
        }
    }
}

/// Shifting one left by `k` places gives `2^k`.
proof fn lemma_shift_pow2(k: u32)
    requires
        k < usize::BITS,
    ensures
        (1usize << k) as nat == pow2(k as nat),
    decreases k,
{
    if k == 0 {
        assert(1usize << 0u32 == 1usize) by (bit_vector);
    } else {
        lemma_shift_pow2((k - 1) as u32);
        let j = (k - 1) as u32;
        assert((1usize << k) == 2 * (1usize << j)) by (bit_vector)
            requires
                j + 1 < usize::BITS,
                k == j + 1,
        ;
    }
}

/// Whether the entry at `k` starts a run of equal entries: the first entry
/// does unless it is `u32::MAX`, the value the run before the first one is
/// taken to have; any other does when it differs from the one before.
pub open spec fn starts_run(input: Seq<u32>, k: int) -> bool {
    if k == 0 {
        input[0] != u32::MAX
    } else {
        input[k] != input[k - 1]
    }
}

/// Whether `out` is what mapping `input` by the applier gives, calling it
/// once for each run of equal entries: an entry that starts a run maps to
/// what the applier returned for it, any other to what the entry before
/// mapped to; a first entry of `u32::MAX` maps to `u32::MAX`.
pub open spec fn applied<F: Fn(u32) -> u32>(input: Seq<u32>, out: Seq<u32>, f: F) -> bool {
    &&& out.len() == input.len()
    &&& forall|k: int|
        0 <= k < input.len() ==> if starts_run(input, k) {
            call_ensures(f, (input[k],), #[trigger] out[k])
        } else if k == 0 {
            out[k] == u32::MAX
        } else {
            out[k] == out[k - 1]
        }
}

/// Maps each entry by the applier, calling it once for each run of equal
/// entries.
pub fn apply_each<F: Fn(u32) -> u32>(is: &mut [u32], applier: F)
    requires
        forall|x: u32| #[trigger] applier.requires((x,)),
    ensures
        applied(old(is)@, final(is)@, applier),
{
    let ghost input = is@;
    let mut i: u32 = u32::MAX;
    let mut j: u32 = u32::MAX;
    let mut k: usize = 0;
    while k < is.len()
        invariant
            k <= is@.len(),
            is@.len() == input.len(),
            forall|x: u32| #[trigger] applier.requires((x,)),
            forall|m: int| k <= m < input.len() ==> #[trigger] is@[m] == input[m],
            k == 0 ==> i == u32::MAX && j == u32::MAX,
            k > 0 ==> i == input[k - 1] && j == is@[k - 1],
            forall|m: int|
                0 <= m < k ==> if starts_run(input, m) {
                    call_ensures(applier, (input[m],), #[trigger] is@[m])
                } else if m == 0 {
                    is@[m] == u32::MAX
                } else {
                    is@[m] == is@[m - 1]
                },
        decreases is@.len() - k,
    {
        let l = is[k];
        if l != i {
            i = l;
            j = applier(l);
        }
        is[k] = j;
        k = k + 1;
    }
}

/// The indices a paletted container stores, one per entry of the
/// container, each written in `bits` bits.
pub struct IndexArray {
    bits: u32,
    values: Vec<u32>,
}

impl View for IndexArray {
    type V = Seq<u32>;

    closed spec fn view(&self) -> Seq<u32> {
        self.values@
    }
}

impl IndexArray {
    /// The number of bits of each index.
    pub closed spec fn bits_spec(&self) -> u32 {
        self.bits
    }

    /// An array of `len` indices of `bits` bits each, all zero.
    pub fn zeroed(bits: u32, len: usize) -> (r: Self)
        ensures
            r@ == Seq::new(len as nat, |i: int| 0u32),
            r.bits_spec() == bits,
    {
        let mut values: Vec<u32> = Vec::new();
        let mut i: usize = 0;
        while i < len
            invariant
                i <= len,
                values@ == Seq::new(i as nat, |j: int| 0u32),
            decreases len - i,
        {
            values.push(0);
            i = i + 1;
            assert(values@ =~= Seq::new(i as nat, |j: int| 0u32));
        }
        IndexArray { bits, values }
    }

    /// Returns the number of indices.
    pub fn len(&self) -> (r: usize)
        ensures
            r == self@.len(),
    {
        self.values.len()
    }

    /// Returns the index at the given position, if there is one.
    pub fn get(&self, index: usize) -> (r: Option<u32>)
        ensures
            r == (if index < self@.len() {
                Some(self@[index as int])
            } else {
                None
            }),
    {
        if index < self.values.len() {
            Some(self.values[index])
        } else {
            None
        }
    }

    /// Sets the index at the given position and returns the old one; does
    /// nothing past the end.
    pub fn swap(&mut self, index: usize, value: u32) -> (r: Option<u32>)
        ensures
            r == (if index < old(self)@.len() {
                Some(old(self)@[index as int])
            } else {
                None
            }),
            final(self)@ == (if index < old(self)@.len() {
                old(self)@.update(index as int, value)
            } else {
                old(self)@
            }),
            final(self).bits_spec() == old(self).bits_spec(),
    {
        if index < self.values.len() {
            let old_value = self.values[index];
            self.values.set(index, value);
            Some(old_value)
        } else {
            None
        }
    }

    /// Sets the index at the given position; does nothing past the end.
    pub fn set(&mut self, index: usize, value: u32)
        ensures
            final(self)@ == (if index < old(self)@.len() {
                old(self)@.update(index as int, value)
            } else {
                old(self)@
            }),
            final(self).bits_spec() == old(self).bits_spec(),
    {
        let _ = self.swap(index, value);
    }
}

/// A storage for paletted containers.
pub enum Storage {
    /// An array of indices.
    PackedArray(IndexArray),
    /// An empty storage with length.
    Empty(usize),
}

impl Storage {
    /// The number of entries the storage stands for.
    pub open spec fn len_spec(&self) -> nat {
        match self {
            Storage::PackedArray(a) => a@.len(),
            Storage::Empty(n) => *n as nat,
        }
    }

    /// The index stored at position `i`: an empty storage reads as all
    /// zeros.
    pub open spec fn index_at(&self, i: int) -> Option<u32> {
        match self {
            Storage::PackedArray(a) => if 0 <= i < a@.len() {
                Some(a@[i])
            } else {
                None
            },
            Storage::Empty(n) => if 0 <= i < *n {
                Some(0u32)
            } else {
                None
            },
        }
    }

    /// Returns the number of entries the storage stands for.
    pub fn len(&self) -> (r: usize)
        ensures
            r == self.len_spec(),
    {
        match self {
            Storage::PackedArray(a) => a.len(),
            Storage::Empty(n) => *n,
        }
    }

    /// Returns the index stored at the given position.
    pub fn get(&self, index: usize) -> (r: Option<u32>)
        ensures
            r == self.index_at(index as int),
    {
        match self {
            Storage::PackedArray(a) => a.get(index),
            Storage::Empty(n) => if index < *n {
                Some(0)
            } else {
                None
            },
        }
    }
}

/// The storage and palette of a paletted container.
pub struct Data<L> {
    storage: Storage,
    palette: Palette<L>,
}

impl<L> Data<L> {
    /// The storage.
    pub closed spec fn storage_spec(&self) -> &Storage {
        &self.storage
    }

    /// The palette.
    pub closed spec fn palette_spec(&self) -> &Palette<L> {
        &self.palette
    }
}

/// The object that position `j` of `storage` holds under `palette`.
pub open spec fn object_at<L: IndexFromRaw>(palette: Palette<L>, storage: Storage, j: int) -> Option<
    u64,
> {
    match storage.index_at(j) {
        Some(x) => palette.get_spec(x as usize),
        None => None,
    }
}

/// Whether the palette gives `o` an index that fits 32 bits and maps that
/// index back to `o`.
pub open spec fn resolves<L: IndexToRaw + IndexFromRaw>(p: Palette<L>, o: u64) -> bool {
    p.index_spec(o) matches Some(k) && k <= u32::MAX && p.get_spec(k) == Some(o)
}

/// Whether the palette `q` and storage `t` hold, at each position of `s`
/// that both storages have, but `skip`, the object that `p` and `s` hold
/// there, wherever `q` resolves that object.
pub open spec fn carries<L: IndexToRaw + IndexFromRaw, L1: IndexFromRaw>(
    q: Palette<L>,
    t: Storage,
    p: Palette<L1>,
    s: Storage,
    skip: int,
) -> bool {
    forall|j: int|
        0 <= j < s.len_spec() && j < t.len_spec() && j != skip ==> match #[trigger] object_at(
            p,
            s,
            j,
        ) {
            Some(o) => resolves(q, o) ==> object_at(q, t, j) == Some(o),
            None => true,
        }
}

/// Whether the palette `q` indexes every object that `p` and `s` hold, or
/// is full.
pub open spec fn covers<L: IndexToRaw, L1: IndexFromRaw>(q: Palette<L>, p: Palette<L1>, s: Storage) -> bool {
    forall|j: int|
        0 <= j < s.len_spec() ==> match #[trigger] object_at(p, s, j) {
            Some(o) => q.index_spec(o) is Some || q.stored().len() == q.capacity(),
            None => true,
        }
}

/// Indexing `value` in a palette that covers the objects of `p` and `s`
/// and carries them into `t` keeps them carried.
proof fn lemma_index_keeps_carries<L: IndexToRaw + IndexFromRaw, L1: IndexFromRaw>(
    q1: Palette<L>,
    q: Palette<L>,
    t: Storage,
    p: Palette<L1>,
    s: Storage,
    value: u64,
)
    requires
        q1.wf(),
        q1.coherent(),
        covers(q1, p, s),
        carries(q1, t, p, s, -1),
        match q1.index_spec(value) {
            Some(_) => q == q1,
            None => if q1.stored().len() < q1.capacity() {
                appended(q1, q, value)
            } else {
                q == q1
            },
        },
    ensures
        carries(q, t, p, s, -1),
{
    if q != q1 {
        assert forall|j: int|
            0 <= j < s.len_spec() && j < t.len_spec() && j != -1 implies match #[trigger] object_at(
            p,
            s,
            j,
        ) {
            Some(o) => resolves(q, o) ==> object_at(q, t, j) == Some(o),
            None => true,
        } by {
            if let Some(o) = object_at(p, s, j) {
                if resolves(q, o) {
                    if q1.strategy() == Strategy::Direct {
                        assert(false);
                    }
                    if q1.index_spec(o) is Some {
                        lemma_append_keeps_index(q1, q, value, o);
                        let x = t.index_at(j)->0;
                        assert(q1.get_spec(x as usize) == Some(o));
                    }
                }
            }
        }
    }
}

/// Whether `q` is `p` with what may change when objects are indexed in it:
/// the same strategy, bits, id list and capacity.
pub open spec fn same_shape<L>(p: Palette<L>, q: Palette<L>) -> bool {
    &&& q.wf()
    &&& p.coherent() ==> q.coherent()
    &&& q.strategy() == p.strategy()
    &&& q.bits() == p.bits()
    &&& q.id_list() == p.id_list()
    &&& q.capacity() == p.capacity()
}

/// Whether a storage can hold what a palette indexes: an empty storage
/// reads every position as index zero, so its palette is not direct and
/// holds at most one entry.
pub open spec fn storage_fits<L>(p: Palette<L>, s: Storage) -> bool {
    s is Empty ==> p.strategy() != Strategy::Direct && p.capacity() <= 1
}

/// Indexing in a palette with room an object it lacks keeps the index of
/// every other object.
proof fn lemma_append_keeps_index<L: IndexToRaw>(p: Palette<L>, q: Palette<L>, x: u64, o: u64)
    requires
        p.wf(),
        p.coherent(),
        p.strategy() != Strategy::Direct,
        p.index_spec(x) is None,
        p.index_spec(o) is Some,
        p.stored().len() < p.capacity(),
        q.strategy() == p.strategy(),
        q.stored() == p.stored().push(x),
        q.reverse_index() == (if p.strategy() == Strategy::BiMap {
            p.reverse_index().insert(x, p.stored().len() as u64)
        } else {
            p.reverse_index()
        }),
    ensures
        q.index_spec(o) == p.index_spec(o),
{
    if p.strategy() == Strategy::Array {
        crate::palette::lemma_position_push(p.stored(), x, o, 0);
    } else if p.strategy() == Strategy::Singular {
        assert(p.stored().len() == 0);
    }
}

impl<L: IndexToRaw + IndexFromRaw> Data<L> {
    /// Imports the data from the other palette and storage: each position
    /// of the other storage holds an object under the other palette, which
    /// this palette indexes, inserting it where it is new and fits; an
    /// array storage then takes that index at the position.
    ///
    /// Every object that this palette resolves afterwards stands at each
    /// position that held it, where this storage can hold it.
    pub fn import_from<L1: IndexFromRaw>(&mut self, palette: &Palette<L1>, storage: &Storage)
        requires
            old(self).palette_spec().wf(),
            old(self).palette_spec().coherent(),
        ensures
            same_shape(*old(self).palette_spec(), *final(self).palette_spec()),
            match old(self).storage_spec() {
                Storage::PackedArray(a) => final(self).storage_spec() matches Storage::PackedArray(b)
                    && b.bits_spec() == a.bits_spec() && b@.len() == a@.len(),
                Storage::Empty(n) => *final(self).storage_spec() == Storage::Empty(*n),
            },
            storage_fits(*old(self).palette_spec(), *old(self).storage_spec()) ==> carries(
                *final(self).palette_spec(),
                *final(self).storage_spec(),
                *palette,
                *storage,
                -1,
            ),
            covers(*final(self).palette_spec(), *palette, *storage),
    {
        let n = storage.len();
        let ghost start = self.storage;
        let ghost p0 = self.palette;
        let ghost mut ks: Seq<Option<usize>> = Seq::empty();
        let mut i: usize = 0;
        while i < n
            invariant
                i <= n,
                n == storage.len_spec(),
                ks.len() == i,
                p0 == old(self).palette,
                start == old(self).storage,
                p0.wf(),
                p0.coherent(),
                same_shape(p0, self.palette),
                p0.strategy() == Strategy::Direct ==> self.palette == p0,
                match start {
                    Storage::PackedArray(a) => self.storage matches Storage::PackedArray(b)
                        && b.bits_spec() == a.bits_spec() && b@.len() == a@.len() && forall|j: int|
                        0 <= j < i && j < b@.len() ==> (#[trigger] ks[j] matches Some(k) ==> b@[j]
                            == k as u32),
                    Storage::Empty(m) => self.storage == Storage::Empty(m),
                },
                forall|j: int|
                    0 <= j < i ==> match #[trigger] object_at(*palette, *storage, j) {
                        Some(o) => if p0.strategy() == Strategy::Direct {
                            ks[j] == self.palette.index_spec(o)
                        } else {
                            ||| ks[j] matches Some(k) && self.palette.index_spec(o) == Some(k) && k
                                < self.palette.stored().len() && self.palette.stored()[k as int] == o
                            ||| self.palette.stored().len() == self.palette.capacity()
                                && self.palette.index_spec(o) is None
                        },
                        None => true,
                    },
            decreases n - i,
        {
            let obj = match storage.get(i) {
                Some(x) => palette.get(x as usize),
                None => None,
            };
            let ghost before = self.palette;
            let ghost ks0 = ks;
            let k = match obj {
                Some(o) => match self.palette.index_or_insert(o) {
                    Ok(k) => Some(k),
                    Err(_) => None,
                },
                None => None,
            };
            proof {
                ks = ks.push(k);
                assert(object_at(*palette, *storage, i as int) == obj);
                if let Some(o) = obj {
                    if before.index_spec(o) is None && before.stored().len() < before.capacity() {
                        assert forall|j: int| 0 <= j < i implies match #[trigger] object_at(
                            *palette,
                            *storage,
                            j,
                        ) {
                            Some(o2) => if p0.strategy() == Strategy::Direct {
                                ks[j] == self.palette.index_spec(o2)
                            } else {
                                ||| ks[j] matches Some(k2) && self.palette.index_spec(o2) == Some(k2)
                                    && k2 < self.palette.stored().len()
                                    && self.palette.stored()[k2 as int] == o2
                                ||| self.palette.stored().len() == self.palette.capacity()
                                    && self.palette.index_spec(o2) is None
                            },
                            None => true,
                        } by {
                            assert(ks[j] == ks0[j]);
                            if let Some(o2) = object_at(*palette, *storage, j) {
                                if before.index_spec(o2) is Some {
                                    lemma_append_keeps_index(before, self.palette, o, o2);
                                }
                            }
                        }
                    } else {
                        assert(self.palette == before);
                        assert forall|j: int| 0 <= j < i implies #[trigger] ks[j] == ks0[j] by {}
                    }
                } else {
                    assert forall|j: int| 0 <= j < i implies #[trigger] ks[j] == ks0[j] by {}
                }
            }
            if let Some(k) = k {
                match &mut self.storage {
                    Storage::PackedArray(a) => {
                        let _ = a.swap(i, k as u32);
                    },
                    Storage::Empty(_) => {},
                }
            }
            i = i + 1;
        }
        proof {
            let q = self.palette;
            let t = self.storage;
            assert forall|j: int| 0 <= j < storage.len_spec() implies match #[trigger] object_at(
                *palette,
                *storage,
                j,
            ) {
                Some(o) => q.index_spec(o) is Some || q.stored().len() == q.capacity(),
                None => true,
            } by {}
            if storage_fits(p0, start) {
                assert forall|j: int|
                    0 <= j < storage.len_spec() && j < t.len_spec() && j != -1 implies match #[trigger] object_at(
                    *palette,
                    *storage,
                    j,
                ) {
                    Some(o) => resolves(q, o) ==> object_at(q, t, j) == Some(o),
                    None => true,
                } by {
                    if let Some(o) = object_at(*palette, *storage, j) {
                        if resolves(q, o) {
                            if p0.strategy() != Strategy::Direct {
                                let k = ks[j]->0;
                                if t is Empty {
                                    assert(k == 0);
                                }
                            }
                        }
                    }
                }
            }
        }
    }
}

/// Whether a palette configuration can be made into data: the palette
/// accepts it with no entries, and a direct palette writes its indices in
/// some bits.
pub open spec fn valid_config(config: (Strategy, u32)) -> bool {
    &&& new_accepts(config.0, config.1, 0)
    &&& config.1 < 64
    &&& config.0 == Strategy::Direct ==> config.1 > 0
}

/// Whether `p` is a new palette of the configuration over a clone of
/// `list`, holding nothing.
pub open spec fn fresh_palette<L: Clone>(p: Palette<L>, config: (Strategy, u32), list: L) -> bool {
    &&& p.wf()
    &&& p.coherent()
    &&& p.strategy() == config.0
    &&& p.bits() == (if config.0 == Strategy::Array || config.0 == Strategy::BiMap {
        config.1
    } else {
        0
    })
    &&& cloned(list, p.id_list())
    &&& p.stored() == Seq::<u64>::empty()
    &&& (config.0 == Strategy::Array || config.0 == Strategy::BiMap) ==> p.capacity()
        == pow2_usize(config.1)
}

/// Whether `s` is the storage of new data of `bits` bits per index: empty
/// when no bits are needed, else an array of zero indices.
pub open spec fn fresh_storage(s: Storage, bits: u32, len: nat) -> bool {
    if bits == 0 {
        s == Storage::Empty(len as usize)
    } else {
        s matches Storage::PackedArray(a) && a@ == Seq::new(len, |i: int| 0u32) && a.bits_spec()
            == bits
    }
}

/// Whether the palette `q` is `p` with `value` appended.
pub open spec fn appended<L>(p: Palette<L>, q: Palette<L>, value: u64) -> bool {
    &&& q.wf()
    &&& p.coherent() ==> q.coherent()
    &&& q.strategy() == p.strategy()
    &&& q.bits() == p.bits()
    &&& q.id_list() == p.id_list()
    &&& q.capacity() == p.capacity()
    &&& q.stored() == p.stored().push(value)
    &&& q.reverse_index() == (if p.strategy() == Strategy::BiMap {
        p.reverse_index().insert(value, p.stored().len() as u64)
    } else {
        p.reverse_index()
    })
}

/// Whether the storage `t` is `s` with the index `r`, if there is one,
/// stored at position `index`: only an array stores it, and only within its
/// length.
pub open spec fn stored_at(s: Storage, index: usize, r: Option<usize>, t: Storage) -> bool {
    match s {
        Storage::PackedArray(a) => t matches Storage::PackedArray(b) && b.bits_spec()
            == a.bits_spec() && b@ == match r {
            Some(i) => if index < a@.len() {
                a@.update(index as int, i as u32)
            } else {
                a@
            },
            None => a@,
        },
        Storage::Empty(n) => t == Storage::Empty(n),
    }
}

/// A paletted container stores objects as small integer indices, governed
/// by palettes that map between these objects and indices.
pub struct PalettedContainer<L, Cx> {
    list: L,
    data: Data<L>,
    _marker: PhantomData<Cx>,
}

impl<L, Cx> PalettedContainer<L, Cx> {
    /// The id list of the container.
    pub closed spec fn list_spec(&self) -> L {
        self.list
    }

    /// The storage of the container.
    pub closed spec fn storage_spec(&self) -> Storage {
        self.data.storage
    }

    /// The palette of the container.
    pub closed spec fn palette_spec(&self) -> Palette<L> {
        self.data.palette
    }
}

/// Whether `q` is a palette of the configuration over a clone of `list`
/// that data made for it starts with, and may since have indexed objects in.
pub open spec fn config_palette<L: Clone>(q: Palette<L>, config: (Strategy, u32), list: L) -> bool {
    &&& q.wf()
    &&& q.coherent()
    &&& q.strategy() == config.0
    &&& q.bits() == (if config.0 == Strategy::Array || config.0 == Strategy::BiMap {
        config.1
    } else {
        0
    })
    &&& cloned(list, q.id_list())
    &&& (config.0 == Strategy::Array || config.0 == Strategy::BiMap) ==> q.capacity()
        == pow2_usize(config.1)
    &&& config.0 == Strategy::Singular ==> q.capacity() == 1
}

impl<L: Clone + IndexToRaw + IndexFromRaw, Cx: ProvidePalette<L>> PalettedContainer<L, Cx> {
    /// Whether the palette of the container, with the index `r` for
    /// `value`, may come from indexing `value` in a container with the
    /// list, palette `p` and storage `s`: an object already indexed keeps its
    /// index; one that fits is appended; one that does not makes data of the
    /// configuration that the provider chooses for one more bit, unless the
    /// palette has that configuration already. The new data takes the old
    /// data's objects, each at its positions wherever the new palette
    /// resolves it, then indexes `value`. Either way `r` is the index that
    /// the palette has for `value` afterwards.
    pub open spec fn indexes(
        list: L,
        p: Palette<L>,
        s: Storage,
        value: u64,
        q: Palette<L>,
        t: Storage,
        r: Option<usize>,
    ) -> bool {
        &&& r == q.index_spec(value)
        &&& match p.index_spec(value) {
            Some(i) => r == Some(i) && q == p && t == s,
            None => if p.stored().len() < p.capacity() {
                r == Some(p.stored().len() as usize) && appended(p, q, value) && t == s
            } else {
                let config = Cx::palette_config(&list, (p.bits() + 1) as u32);
                if config == (p.strategy(), p.bits()) {
                    r is None && q == p && t == s
                } else {
                    let len = pow2((Cx::EDGE_BITS * 3) as nat);
                    &&& config_palette(q, config, list)
                    &&& if config.1 == 0 {
                        t == Storage::Empty(len as usize)
                    } else {
                        t matches Storage::PackedArray(b) && b.bits_spec() == config.1 && b@.len()
                            == len
                    }
                    &&& carries(q, t, p, s, -1)
                }
            },
        }
    }
}

/// New data of the configuration over the list: a palette that holds
/// nothing, and a storage of `len` indices, all zero.
fn create_data<L>(config: (Strategy, u32), list: L, len: usize) -> (r: Data<L>)
    requires
        valid_config(config),
    ensures
        r.palette_spec().wf(),
        r.palette_spec().coherent(),
        r.palette_spec().strategy() == config.0,
        r.palette_spec().bits() == (if config.0 == Strategy::Array || config.0 == Strategy::BiMap {
            config.1
        } else {
            0
        }),
        r.palette_spec().id_list() == list,
        r.palette_spec().stored() == Seq::<u64>::empty(),
        (config.0 == Strategy::Array || config.0 == Strategy::BiMap) ==> r.palette_spec().capacity()
            == pow2_usize(config.1),
        config.0 == Strategy::Singular ==> r.palette_spec().capacity() == 1,
        fresh_storage(*r.storage_spec(), config.1, len as nat),
        storage_fits(*r.palette_spec(), *r.storage_spec()),
{
    proof {
        assert(1usize << 0u32 == 1usize) by (bit_vector);
    }
    let storage = if config.1 == 0 {
        Storage::Empty(len)
    } else {
        Storage::PackedArray(IndexArray::zeroed(config.1, len))
    };
    let palette = Palette::new(config.0, config.1, list, Vec::new());
    Data { storage, palette }
}

impl<L: Clone + IndexToRaw + IndexFromRaw, Cx: ProvidePalette<L>> PalettedContainer<L, Cx> {
    /// The palette is well formed and its reverse index agrees with it, the
    /// provider chooses valid configurations for the list, and the
    /// container's length fits a `usize`.
    pub open spec fn wf(&self) -> bool {
        &&& self.palette_spec().wf()
        &&& self.palette_spec().coherent()
        &&& storage_fits(self.palette_spec(), self.storage_spec())
        &&& forall|b: u32| valid_config(#[trigger] Cx::palette_config(&self.list_spec(), b))
        &&& Cx::EDGE_BITS * 3 < usize::BITS
    }

    /// Makes data for `bits` bits per index in place of the current data,
    /// unless the palette has the configuration that the provider chooses
    /// for them already, and returns the index of `object` in the new
    /// palette, if it has one.
    fn on_resize(&mut self, bits: u32, object: u64) -> (r: Option<usize>)
        requires
            old(self).wf(),
        ensures
            final(self).wf(),
            final(self).list_spec() == old(self).list_spec(),
            ({
                let config = Cx::palette_config(&old(self).list_spec(), bits);
                let p = old(self).palette_spec();
                let s = old(self).storage_spec();
                let q = final(self).palette_spec();
                let t = final(self).storage_spec();
                if config == (p.strategy(), p.bits()) {
                    r is None && q == p && t == s
                } else {
                    let len = pow2((Cx::EDGE_BITS * 3) as nat);
                    &&& config_palette(q, config, old(self).list_spec())
                    &&& r == q.index_spec(object)
                    &&& if config.1 == 0 {
                        t == Storage::Empty(len as usize)
                    } else {
                        t matches Storage::PackedArray(b) && b.bits_spec() == config.1 && b@.len()
                            == len
                    }
                    &&& carries(q, t, p, s, -1)
                }
            }),
    {
        let config = Cx::provide_palette_config(&self.list, bits);
        let current = self.data.palette.config();
        if current.0 == config.0 && current.1 == config.1 {
            return None;
        }
        proof {
            assert(self.list == old(self).list_spec());
            assert(valid_config(Cx::palette_config(&old(self).list_spec(), bits)));
        }
        let list = self.list.clone();
        let len = Cx::container_len();
        let mut data = create_data(config, list, len);
        data.import_from(&self.data.palette, &self.data.storage);
        let ghost q1 = data.palette;
        self.data = data;
        let r = match self.data.palette.index_or_insert(object) {
            Ok(i) => Some(i),
            Err(_) => None,
        };
        proof {
            lemma_index_keeps_carries(
                q1,
                self.data.palette,
                self.data.storage,
                old(self).data.palette,
                old(self).data.storage,
                object,
            );
            assert(self.list == old(self).list);
        }
        r
    }

    /// The index of `value` in the palette: the one it has, or a new one
    /// where it fits, or, when it does not, the one it has in data made for
    /// one more bit per index.
    fn index_for(&mut self, value: u64) -> (r: Option<usize>)
        requires
            old(self).wf(),
        ensures
            final(self).wf(),
            final(self).list_spec() == old(self).list_spec(),
            Self::indexes(
                old(self).list_spec(),
                old(self).palette_spec(),
                old(self).storage_spec(),
                value,
                final(self).palette_spec(),
                final(self).storage_spec(),
                r,
            ),
    {
        match self.data.palette.index_or_insert(value) {
            Ok(i) => {
                proof {
                    assert(self.list == old(self).list);
                    assert forall|b: u32| valid_config(
                        #[trigger] Cx::palette_config(&self.list_spec(), b),
                    ) by {
                        assert(valid_config(Cx::palette_config(&old(self).list_spec(), b)));
                    }
                }
                Some(i)
            },
            Err((bits, object)) => self.on_resize(bits, object),
        }
    }
}

impl<L: Clone, Cx> PalettedContainer<L, Cx> {
    /// Creates a new paletted container with the given list of ids, palette
    /// configuration, storage and entries; the palette takes a clone of the
    /// list.
    pub fn new(list: L, config: (Strategy, u32), storage: Storage, entries: Vec<u64>) -> (r: Self)
        requires
            new_accepts(config.0, config.1, entries@.len()),
        ensures
            r.list_spec() == list,
            r.storage_spec() == storage,
            r.palette_spec().wf(),
            r.palette_spec().coherent(),
            r.palette_spec().strategy() == config.0,
            r.palette_spec().bits() == (if config.0 == Strategy::Array || config.0
                == Strategy::BiMap {
                config.1
            } else {
                0
            }),
            cloned(list, r.palette_spec().id_list()),
            config.0 != Strategy::Direct ==> r.palette_spec().stored() == entries@,
    {
        let palette = Palette::new(config.0, config.1, list.clone(), entries);
        PalettedContainer { list, data: Data { storage, palette }, _marker: PhantomData }
    }
}

impl<L: Clone + IndexToRaw + IndexFromRaw, Cx: ProvidePalette<L>> PalettedContainer<L, Cx> {
    /// Whether the provider chooses valid configurations for every list and
    /// number of bits.
    pub open spec fn provider_valid() -> bool {
        forall|l: L, b: u32| valid_config(#[trigger] Cx::palette_config(&l, b))
    }

    /// Whether `r` may be the container that [`Self::of_single`] makes of
    /// the list and the object: new data of the configuration that the
    /// provider chooses for no bits, over a clone of the list, in which the
    /// object is then indexed.
    pub open spec fn single(list: L, object: u64, r: Self) -> bool {
        exists|l: L, p: Palette<L>, s: Storage, i: Option<usize>|
            #![trigger Self::indexes(list, p, s, object, r.palette_spec(), r.storage_spec(), i), cloned(list, l)]
            {
                let config = Cx::palette_config(&l, 0);
                &&& cloned(list, l)
                &&& fresh_palette(p, config, l)
                &&& fresh_storage(s, config.1, pow2((Cx::EDGE_BITS * 3) as nat))
                &&& Self::indexes(list, p, s, object, r.palette_spec(), r.storage_spec(), i)
            }
    }

    /// Indexing `value` and storing its index at `index` updates that one
    /// position: every other position keeps its object wherever the new
    /// palette resolves it, and the position takes `value` where the new
    /// palette resolves it.
    proof fn lemma_point_update(
        list: L,
        p: Palette<L>,
        s: Storage,
        value: u64,
        q: Palette<L>,
        t: Storage,
        r: Option<usize>,
        index: usize,
        fs: Storage,
    )
        requires
            p.wf(),
            p.coherent(),
            q.wf(),
            Self::indexes(list, p, s, value, q, t, r),
            stored_at(t, index, r, fs),
            storage_fits(q, fs),
        ensures
            carries(q, fs, p, s, index as int),
            index < fs.len_spec() && resolves(q, value) ==> object_at(q, fs, index as int) == Some(
                value,
            ),
    {
        assert forall|j: int|
            0 <= j < s.len_spec() && j < fs.len_spec() && j != index implies match #[trigger] object_at(
            p,
            s,
            j,
        ) {
            Some(o) => resolves(q, o) ==> object_at(q, fs, j) == Some(o),
            None => true,
        } by {
            assert(fs.index_at(j) == t.index_at(j));
            if let Some(o) = object_at(p, s, j) {
                if p.index_spec(value) is None && p.stored().len() < p.capacity() {
                    let x = s.index_at(j)->0;
                    assert(p.get_spec(x as usize) == Some(o));
                }
            }
        }
        if index < fs.len_spec() && resolves(q, value) {
            let k = r->0;
            if fs is Empty {
                assert(k == 0);
            }
        }
    }

    /// Creates a new paletted container that contains the given object.
    pub fn of_single(list: L, object: u64) -> (r: Self)
        requires
            Self::provider_valid(),
            Cx::EDGE_BITS * 3 < usize::BITS,
        ensures
            r.wf(),
            r.list_spec() == list,
            Self::single(list, object, r),
            r.storage_spec() is Empty ==> resolves(r.palette_spec(), object) && forall|i: int|
                0 <= i < r.storage_spec().len_spec() ==> #[trigger] object_at(
                    r.palette_spec(),
                    r.storage_spec(),
                    i,
                ) == Some(object),
    {
        let l = list.clone();
        let config = Cx::provide_palette_config(&l, 0);
        proof {
            assert(valid_config(Cx::palette_config(&l, 0)));
        }
        let len = Cx::container_len();
        let data = create_data(config, l.clone(), len);
        let mut this = PalettedContainer { list, data, _marker: PhantomData };
        proof {
            assert(cloned(l, this.data.palette.id_list()));
        }
        let ghost p = this.data.palette;
        let ghost s = this.data.storage;
        let i = this.index_for(object);
        proof {
            assert(fresh_palette(p, config, l));
            assert(Self::indexes(list, p, s, object, this.palette_spec(), this.storage_spec(), i));
            assert(cloned(list, l));
            if p.strategy() != Strategy::Direct {
                if p.strategy() == Strategy::Array || p.strategy() == Strategy::BiMap {
                    let b = config.1;
                    assert((1usize << b) >= 1usize) by (bit_vector)
                        requires
                            b < usize::BITS,
                    ;
                }
                assert(p.capacity() >= 1);
                if p.strategy() == Strategy::BiMap {
                    assert forall|e: u64| !p.reverse_index().contains_key(e) by {}
                }
                assert(p.index_spec(object) is None);
                assert(this.palette_spec().stored() == seq![object]);
            }
        }
        this
    }

    /// Sets the value at the given index: the palette indexes the value,
    /// resizing as [`Self::indexes`] says, and an array storage takes its
    /// index at the given position.
    pub fn set(&mut self, index: usize, value: u64)
        requires
            old(self).wf(),
        ensures
            final(self).wf(),
            final(self).list_spec() == old(self).list_spec(),
            exists|t: Storage, i: Option<usize>|
                #![trigger Self::indexes(old(self).list_spec(), old(self).palette_spec(), old(self).storage_spec(), value, final(self).palette_spec(), t, i)]
                Self::indexes(
                    old(self).list_spec(),
                    old(self).palette_spec(),
                    old(self).storage_spec(),
                    value,
                    final(self).palette_spec(),
                    t,
                    i,
                ) && stored_at(t, index, i, final(self).storage_spec()),
            carries(
                final(self).palette_spec(),
                final(self).storage_spec(),
                old(self).palette_spec(),
                old(self).storage_spec(),
                index as int,
            ),
            index < final(self).storage_spec().len_spec() && resolves(
                final(self).palette_spec(),
                value,
            ) ==> object_at(final(self).palette_spec(), final(self).storage_spec(), index as int)
                == Some(value),
    {
        let i = self.index_for(value);
        let ghost t = self.data.storage;
        if let Some(i) = i {
            match &mut self.data.storage {
                Storage::PackedArray(a) => a.set(index, i as u32),
                Storage::Empty(_) => {},
            }
        }
        proof {
            assert(stored_at(t, index, i, self.data.storage));
            Self::lemma_point_update(
                old(self).list,
                old(self).data.palette,
                old(self).data.storage,
                value,
                self.data.palette,
                t,
                i,
                index,
                self.data.storage,
            );
            assert(Self::indexes(
                old(self).list_spec(),
                old(self).palette_spec(),
                old(self).storage_spec(),
                value,
                self.palette_spec(),
                t,
                i,
            ));
        }
    }

    /// Sets the value at the given index and returns the value stored there
    /// before, as the palette maps the old index after indexing the value.
    pub fn swap(&mut self, index: usize, value: u64) -> (r: Option<u64>)
        requires
            old(self).wf(),
        ensures
            final(self).wf(),
            final(self).list_spec() == old(self).list_spec(),
            exists|t: Storage, i: Option<usize>|
                #![trigger Self::indexes(old(self).list_spec(), old(self).palette_spec(), old(self).storage_spec(), value, final(self).palette_spec(), t, i)]
                {
                    &&& Self::indexes(
                        old(self).list_spec(),
                        old(self).palette_spec(),
                        old(self).storage_spec(),
                        value,
                        final(self).palette_spec(),
                        t,
                        i,
                    )
                    &&& stored_at(t, index, i, final(self).storage_spec())
                    &&& r == match i {
                        Some(_) => if t is PackedArray {
                            match t.index_at(index as int) {
                                Some(x) => final(self).palette_spec().get_spec(x as usize),
                                None => None,
                            }
                        } else {
                            None
                        },
                        None => None,
                    }
                },
            carries(
                final(self).palette_spec(),
                final(self).storage_spec(),
                old(self).palette_spec(),
                old(self).storage_spec(),
                index as int,
            ),
            index < final(self).storage_spec().len_spec() && resolves(
                final(self).palette_spec(),
                value,
            ) ==> object_at(final(self).palette_spec(), final(self).storage_spec(), index as int)
                == Some(value),
    {
        let i = self.index_for(value);
        let ghost t = self.data.storage;
        let old_index = match i {
            Some(i) => match &mut self.data.storage {
                Storage::PackedArray(a) => a.swap(index, i as u32),
                Storage::Empty(_) => None,
            },
            None => None,
        };
        proof {
            assert(stored_at(t, index, i, self.data.storage));
            assert(Self::indexes(
                old(self).list_spec(),
                old(self).palette_spec(),
                old(self).storage_spec(),
                value,
                self.palette_spec(),
                t,
                i,
            ));
            Self::lemma_point_update(
                old(self).list,
                old(self).data.palette,
                old(self).data.storage,
                value,
                self.data.palette,
                t,
                i,
                index,
                self.data.storage,
            );
        }
        match old_index {
            Some(x) => self.data.palette.get(x as usize),
            None => None,
        }
    }

    /// Returns the value at the given index: the object that the palette
    /// maps the stored index to; an empty storage reads as index zero.
    pub fn get(&self, index: usize) -> (r: Option<u64>)
        ensures
            r == object_at(self.palette_spec(), self.storage_spec(), index as int),
    {
        match self.data.storage.get(index) {
            Some(x) => self.data.palette.get(x as usize),
            None => None,
        }
    }

    /// Slices this container to a container of the first entry of the
    /// palette, over a clone of the list.
    pub fn to_slice(&self) -> (r: Self)
        requires
            self.wf(),
            Self::provider_valid(),
            self.palette_spec().get_spec(0) is Some,
        ensures
            exists|l: L|
                #![trigger cloned(self.list_spec(), l)]
                cloned(self.list_spec(), l) && r.list_spec() == l && Self::single(
                    l,
                    self.palette_spec().get_spec(0)->0,
                    r,
                ),
    {
        let object = match self.data.palette.get(0) {
            Some(o) => o,
            None => {
                proof {
                    assert(false);
                }
                0
            },
        };
        let l = self.list.clone();
        let r = Self::of_single(l, object);
        proof {
            assert(cloned(self.list_spec(), l));
        }
        r
    }
}

/// How many times `x` stands in `s`.
pub open spec fn count_in(s: Seq<u32>, x: u32) -> nat
    decreases s.len(),
{
    if s.len() == 0 {
        0
    } else {
        count_in(s.drop_last(), x) + if s.last() == x {
            1nat
        } else {
            0nat
        }
    }
}

proof fn lemma_count_in_bound(s: Seq<u32>, x: u32)
    ensures
        count_in(s, x) <= s.len(),
        count_in(s, x) > 0 <==> s.contains(x),
    decreases s.len(),
{
    if s.len() > 0 {
        lemma_count_in_bound(s.drop_last(), x);
        if s.drop_last().contains(x) {
            let j = choose|j: int| 0 <= j < s.drop_last().len() && s.drop_last()[j] == x;
            assert(s[j] == x);
        }
        if s.contains(x) && s.last() != x {
            let j = choose|j: int| 0 <= j < s.len() && s[j] == x;
            assert(s.drop_last()[j] == x);
        }
    }
}

impl Storage {
    /// Whether the index `x` stands somewhere in the storage; an empty
    /// storage is counted as all zeros.
    pub open spec fn holds_index(&self, x: u32) -> bool {
        match self {
            Storage::PackedArray(a) => a@.contains(x),
            Storage::Empty(_) => x == 0,
        }
    }

    /// How many times the index `x` stands in the storage; an empty storage
    /// is counted as all zeros.
    pub open spec fn occurrences(&self, x: u32) -> nat {
        match self {
            Storage::PackedArray(a) => count_in(a@, x),
            Storage::Empty(n) => if x == 0 {
                *n as nat
            } else {
                0
            },
        }
    }
}

/// The distinct indices of `s`, in order of first appearance, with how many
/// times each stands there.
fn index_counts(s: &IndexArray) -> (r: (Vec<u32>, Vec<usize>))
    ensures
        r.0@.no_duplicates(),
        r.0@.len() == r.1@.len(),
        forall|x: u32| #[trigger] r.0@.contains(x) <==> s@.contains(x),
        forall|p: int| 0 <= p < r.0@.len() ==> r.1@[p] == count_in(s@, #[trigger] r.0@[p]),
{
    let mut ids: Vec<u32> = Vec::new();
    let mut counts: Vec<usize> = Vec::new();
    let n = s.len();
    let mut k: usize = 0;
    while k < n
        invariant
            k <= n,
            n == s@.len(),
            ids@.no_duplicates(),
            ids@.len() == counts@.len(),
            forall|x: u32| #[trigger] ids@.contains(x) <==> s@.take(k as int).contains(x),
            forall|p: int|
                0 <= p < ids@.len() ==> counts@[p] == count_in(s@.take(k as int), #[trigger] ids@[p]),
        decreases n - k,
    {
        let v = match s.get(k) {
            Some(v) => v,
            None => 0,
        };
        let ghost before = s@.take(k as int);
        let ghost after = s@.take(k + 1 as int);
        proof {
            assert(after.drop_last() =~= before);
            assert(after.last() == v);
            assert forall|x: u32| #[trigger] after.contains(x) <==> (before.contains(x) || x == v) by {
                if after.contains(x) {
                    let j = choose|j: int| 0 <= j < after.len() && after[j] == x;
                    if j < before.len() {
                        assert(before[j] == x);
                    }
                }
                if before.contains(x) {
                    let j = choose|j: int| 0 <= j < before.len() && before[j] == x;
                    assert(after[j] == x);
                }
                if x == v {
                    assert(after[k as int] == x);
                }
            }
        }
        let mut p: usize = 0;
        let mut found = false;
        while p < ids.len() && !found
            invariant
                p <= ids@.len(),
                !found ==> forall|q: int| 0 <= q < p ==> ids@[q] != v,
                found ==> p < ids@.len() && ids@[p as int] == v,
            decreases ids@.len() - p + (if found {
                0int
            } else {
                1int
            }),
        {
            if ids[p] == v {
                found = true;
            } else {
                p = p + 1;
            }
        }
        if found {
            proof {
                lemma_count_in_bound(before, v);
            }
            let c = counts[p] + 1;
            counts.set(p, c);
        } else {
            proof {
                assert(!ids@.contains(v));
                assert(!before.contains(v));
                lemma_count_in_bound(before, v);
                assert(ids@.push(v).no_duplicates()) by {
                    assert forall|a: int, b: int|
                        0 <= a < b < ids@.push(v).len() implies ids@.push(v)[a] != ids@.push(v)[b] by {
                        if b == ids@.len() {
                            assert(ids@.contains(ids@[a]));
                        }
                    }
                }
            }
            let ghost old_ids = ids@;
            ids.push(v);
            counts.push(1);
            proof {
                assert(ids@.drop_last() =~= old_ids);
                assert forall|x: u32| #[trigger] ids@.contains(x) <==> after.contains(x) by {
                    if ids@.contains(x) {
                        let j = choose|j: int| 0 <= j < ids@.len() && ids@[j] == x;
                        if j < ids@.len() - 1 {
                            assert(ids@.drop_last()[j] == x);
                            assert(ids@.drop_last().contains(x));
                        }
                    }
                    if before.contains(x) {
                        assert(ids@.drop_last().contains(x));
                        let j = choose|j: int| 0 <= j < ids@.drop_last().len() && ids@.drop_last()[j] == x;
                        assert(ids@[j] == x);
                    }
                    if x == v {
                        assert(ids@[ids@.len() - 1] == x);
                    }
                }
            }
        }
        k = k + 1;
    }
    proof {
        assert(s@.take(n as int) =~= s@);
    }
    (ids, counts)
}

impl<L: IndexFromRaw + ListEntries, Cx> PalettedContainer<L, Cx> {
    /// Counts the objects of the container: the only object of a palette
    /// of one entry stands at every position; otherwise each index stored,
    /// or index zero for an empty storage, that the palette maps to an
    /// object is counted once, in some order, with the number of positions
    /// that store it.
    pub fn counts(&self) -> (r: Vec<(u64, usize)>)
        ensures
            ({
                let p = self.palette_spec();
                let s = self.storage_spec();
                if p.entries_spec().len() == 1 && p.get_spec(0) is Some {
                    r@ == seq![(p.get_spec(0)->0, s.len_spec() as usize)]
                } else {
                    exists|ids: Seq<u32>|
                        {
                            &&& ids.no_duplicates()
                            &&& ids.len() == r@.len()
                            &&& forall|j: int|
                                0 <= j < ids.len() ==> s.holds_index(#[trigger] ids[j])
                                    && p.get_spec(ids[j] as usize) == Some(r@[j].0) && r@[j].1
                                    == s.occurrences(ids[j])
                            &&& forall|x: u32|
                                s.holds_index(x) && #[trigger] p.get_spec(x as usize) is Some
                                    ==> ids.contains(x)
                        }
                }
            }),
    {
        let single = if self.data.palette.len() == 1 {
            self.data.palette.get(0)
        } else {
            None
        };
        if let Some(val) = single {
            let mut r = Vec::new();
            r.push((val, self.data.storage.len()));
            return r;
        }
        let (ids, counts) = match &self.data.storage {
            Storage::PackedArray(a) => index_counts(a),
            Storage::Empty(n) => {
                let mut ids = Vec::new();
                ids.push(0u32);
                let mut counts = Vec::new();
                counts.push(*n);
                proof {
                    assert forall|x: u32| #[trigger] ids@.contains(x) <==> x == 0 by {
                        if ids@.contains(x) {
                            let j = choose|j: int| 0 <= j < ids@.len() && ids@[j] == x;
                        }
                        if x == 0 {
                            assert(ids@[0] == x);
                        }
                    }
                }
                (ids, counts)
            },
        };
        let ghost s = self.data.storage;
        let ghost pal = self.data.palette;
        let mut out: Vec<(u64, usize)> = Vec::new();
        let ghost mut picked: Seq<u32> = Seq::empty();
        let ghost mut old_picked: Seq<u32> = Seq::empty();
        let mut q: usize = 0;
        while q < ids.len()
            invariant
                q <= ids@.len(),
                ids@.len() == counts@.len(),
                ids@.no_duplicates(),
                s == self.data.storage,
                pal == self.data.palette,
                forall|x: u32| #[trigger] ids@.contains(x) <==> s.holds_index(x),
                forall|p: int| 0 <= p < ids@.len() ==> counts@[p] == s.occurrences(#[trigger] ids@[p]),
                picked.len() == out@.len(),
                picked.no_duplicates(),
                forall|j: int|
                    0 <= j < picked.len() ==> s.holds_index(#[trigger] picked[j])
                        && pal.get_spec(picked[j] as usize) == Some(out@[j].0) && out@[j].1
                        == s.occurrences(picked[j]) && ids@.take(q as int).contains(picked[j]),
                forall|p: int|
                    0 <= p < q && #[trigger] pal.get_spec(ids@[p] as usize) is Some ==> picked.contains(
                        ids@[p],
                    ),
            decreases ids@.len() - q,
        {
            let x = ids[q];
            proof {
                assert(ids@.contains(x));
            }
            match self.data.palette.get(x as usize) {
                Some(obj) => {
                    proof {
                        assert(!picked.contains(x)) by {
                            if picked.contains(x) {
                                let j = choose|j: int| 0 <= j < picked.len() && picked[j] == x;
                                assert(ids@.take(q as int).contains(picked[j]));
                                let p = choose|p: int|
                                    0 <= p < q && ids@.take(q as int)[p] == picked[j];
                                assert(ids@[p] == ids@[q as int]);
                            }
                        }
                        assert(picked.push(x).no_duplicates()) by {
                            assert forall|a: int, b: int|
                                0 <= a < b < picked.push(x).len() implies picked.push(x)[a]
                                != picked.push(x)[b] by {
                                if b == picked.len() {
                                    assert(picked.contains(picked[a]));
                                }
                            }
                        }
                        old_picked = picked;
                        picked = picked.push(x);
                        assert(picked.drop_last() =~= old_picked);
                    }
                    out.push((obj, counts[q]));
                    proof {
                        assert(ids@.take(q + 1 as int) =~= ids@.take(q as int).push(x));
                        assert forall|j: int| 0 <= j < picked.len() implies ids@.take(
                            q + 1 as int,
                        ).contains(#[trigger] picked[j]) by {
                            if j == picked.len() - 1 {
                                assert(ids@.take(q + 1 as int)[q as int] == picked[j]);
                            } else {
                                assert(picked.drop_last()[j] == picked[j]);
                                assert(ids@.take(q as int).contains(picked[j]));
                                let p = choose|p: int|
                                    0 <= p < q && ids@.take(q as int)[p] == picked[j];
                                assert(ids@.take(q + 1 as int)[p] == picked[j]);
                            }
                        }
                        assert forall|p: int|
                            0 <= p < q + 1 && #[trigger] pal.get_spec(ids@[p] as usize) is Some
                                implies picked.contains(ids@[p]) by {
                            if p == q {
                                assert(picked[picked.len() - 1] == ids@[p]);
                            } else {
                                assert(picked.drop_last().contains(ids@[p]));
                                let j = choose|j: int|
                                    0 <= j < picked.drop_last().len() && picked.drop_last()[j]
                                        == ids@[p];
                                assert(picked[j] == ids@[p]);
                            }
                        }
                    }
                },
                None => {},
            }
            q = q + 1;
        }
        proof {
            assert forall|x: u32|
                s.holds_index(x) && #[trigger] pal.get_spec(x as usize) is Some implies picked.contains(
                x,
            ) by {
                assert(ids@.contains(x));
                let p = choose|p: int| 0 <= p < ids@.len() && ids@[p] == x;
                assert(pal.get_spec(ids@[p] as usize) is Some);
            }
        }
        out
    }
}

impl<L: Clone + IndexToRaw + IndexFromRaw, Cx: ProvidePalette<L>> PalettedContainer<L, Cx> {
    /// Getting a position after setting a value there gives the value
    /// back, when the palette holds the value or has room for it, so that
    /// setting it resizes nothing, the palette is not direct, and the
    /// storage is an array that reaches the position.
    ///
    /// `before` and `after` are the container before and after
    /// [`Self::set`]; the second requirement is what `set` ensures.
    pub proof fn lemma_get_after_set(before: Self, after: Self, index: usize, value: u64)
        requires
            before.wf(),
            exists|t: Storage, i: Option<usize>|
                #![trigger Self::indexes(before.list_spec(), before.palette_spec(), before.storage_spec(), value, after.palette_spec(), t, i)]
                Self::indexes(
                    before.list_spec(),
                    before.palette_spec(),
                    before.storage_spec(),
                    value,
                    after.palette_spec(),
                    t,
                    i,
                ) && stored_at(t, index, i, after.storage_spec()),
            before.palette_spec().strategy() != Strategy::Direct,
            before.palette_spec().index_spec(value) is Some || before.palette_spec().stored().len()
                < before.palette_spec().capacity(),
            before.palette_spec().stored().len() < u32::MAX,
            before.storage_spec() matches Storage::PackedArray(a) && index < a@.len(),
        ensures
            match after.storage_spec().index_at(index as int) {
                Some(x) => after.palette_spec().get_spec(x as usize),
                None => None,
            } == Some(value),
    {
        let p = before.palette_spec();
        let (t, i) = choose|t: Storage, i: Option<usize>|
            #![trigger Self::indexes(before.list_spec(), before.palette_spec(), before.storage_spec(), value, after.palette_spec(), t, i)]
            Self::indexes(
                before.list_spec(),
                before.palette_spec(),
                before.storage_spec(),
                value,
                after.palette_spec(),
                t,
                i,
            ) && stored_at(t, index, i, after.storage_spec());
        match p.index_spec(value) {
            Some(k) => {
                lemma_position_from(p.stored(), value, 0);
                if p.strategy() == Strategy::BiMap {
                    assert(p.reverse_index().contains_key(value));
                }
                assert(k < p.stored().len() && p.stored()[k as int] == value);
            },
            None => {},
        }
    }
}

} // verus!
