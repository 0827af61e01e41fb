//! The packet form of component changes: the number of components set
//! and the number removed, then each component set, as its type's id and
//! the bytes of its value, then the id of each type removed.

use ahash::{AHashMap, AHashSet};
use vstd::prelude::*;

use crate::component::changes::ComponentChanges;
use crate::component::{not_in, record_flag, serializable_types, ErasedComponentType};
use crate::index_map::{
    opt_map_contents, opt_map_get, opt_map_insert, opt_map_keys, opt_map_new, u64_set_contains,
    u64_set_contents, u64_set_new,
};
use crate::packet::PacketError;
use crate::varint::{
    lemma_var_roundtrip, read_var, var_bytes, var_read, var_runs_out, write_var, VarIntError,
    VarRead,
};

verus! {

/// How many of the listed component types the changes set.
pub open spec fn count_set(c: Map<u64, Option<u64>>, keys: Seq<u64>) -> nat
    decreases keys.len(),
{
    if keys.len() == 0 {
        0
    } else {
        count_set(c, keys.drop_last()) + if c[keys.last()] is Some {
            1nat
        } else {
            0nat
        }
    }
}

/// The bytes of the listed changes that set components, in order: each
/// type's id as a variable-length integer, then the bytes of its value
/// from `vals`, which holds one entry per listed type.
pub open spec fn set_entries_bytes(
    c: Map<u64, Option<u64>>,
    keys: Seq<u64>,
    vals: Seq<Vec<u8>>,
) -> Seq<u8>
    decreases keys.len(),
{
    if keys.len() == 0 {
        Seq::empty()
    } else {
        set_entries_bytes(c, keys.drop_last(), vals.drop_last()) + if c[keys.last()] is Some {
            var_bytes(keys.last() as nat) + vals.last()@
        } else {
            Seq::empty()
        }
    }
}

/// The bytes of the listed changes that remove components, in order: each
/// type's id as a variable-length integer.
pub open spec fn removed_entries_bytes(c: Map<u64, Option<u64>>, keys: Seq<u64>) -> Seq<u8>
    decreases keys.len(),
{
    if keys.len() == 0 {
        Seq::empty()
    } else {
        removed_entries_bytes(c, keys.drop_last()) + if c[keys.last()] is None {
            var_bytes(keys.last() as nat)
        } else {
            Seq::empty()
        }
    }
}

/// The packet form of changes whose types are listed in `keys`: the number
/// of components set and the number removed, then the entries that set,
/// then the entries that remove.
pub open spec fn packet_bytes(c: Map<u64, Option<u64>>, keys: Seq<u64>, vals: Seq<Vec<u8>>) -> Seq<
    u8,
> {
    var_bytes(count_set(c, keys)) + var_bytes((keys.len() - count_set(c, keys)) as nat)
        + set_entries_bytes(c, keys, vals) + removed_entries_bytes(c, keys)
}

/// Whether `bytes` is a packet form of the changes `c`, whose transient
/// types `transient` holds: the types listed once each in some order,
/// with each value set encoded to bytes that `encode_value` may give.
pub open spec fn packet_form<F: Fn(ErasedComponentType, u64) -> Result<Vec<u8>, PacketError>>(
    c: Map<u64, Option<u64>>,
    transient: Set<u64>,
    encode_value: F,
    bytes: Seq<u8>,
) -> bool {
    exists|keys: Seq<u64>, vals: Seq<Vec<u8>>|
        {
            &&& keys.to_set() == c.dom()
            &&& keys.no_duplicates()
            &&& vals.len() == keys.len()
            &&& forall|i: int|
                0 <= i < keys.len() && c[keys[i]] is Some ==> encode_value.ensures(
                    (ErasedComponentType { id: keys[i], transient: transient.contains(keys[i]) }, c[keys[i]]->0),
                    Ok::<Vec<u8>, PacketError>(#[trigger] vals[i]),
                )
            &&& bytes == packet_bytes(c, keys, vals)
        }
}

/// Whether `encode_value` may fail with `e` on a component that the
/// changes `c` set.
pub open spec fn value_error<F: Fn(ErasedComponentType, u64) -> Result<Vec<u8>, PacketError>>(
    c: Map<u64, Option<u64>>,
    transient: Set<u64>,
    encode_value: F,
    e: PacketError,
) -> bool {
    exists|k: u64|
        #![trigger c[k]]
        c.contains_key(k) && c[k] is Some && encode_value.ensures(
            (ErasedComponentType { id: k, transient: transient.contains(k) }, c[k]->0),
            Err::<Vec<u8>, PacketError>(e),
        )
}

proof fn lemma_count_set_bound(c: Map<u64, Option<u64>>, keys: Seq<u64>)
    ensures
        count_set(c, keys) <= keys.len(),
    decreases keys.len(),
{
    if keys.len() > 0 {
        lemma_count_set_bound(c, keys.drop_last());
    }
}

impl ComponentChanges {
    /// Appends the packet form of the changes to the buffer: the number of
    /// components set and the number removed, then each component set, as
    /// its type's id and the bytes that `encode_value` gives for its value,
    /// then the id of each type removed. The types come in the order in
    /// which the map of changes is walked.
    ///
    /// Fails with the first error `encode_value` gives, after the bytes
    /// written before it.
    pub fn encode<F>(&self, buf: &mut Vec<u8>, encode_value: F) -> (r: Result<(), PacketError>) where
        F: Fn(ErasedComponentType, u64) -> Result<Vec<u8>, PacketError>,

        requires
            self.wf(),
            self@.dom().len() <= u32::MAX,
            forall|t: ErasedComponentType, v: u64| #[trigger] encode_value.requires((t, v)),
        ensures
            r is Ok ==> packet_form(
                self@,
                self.transient_types(),
                encode_value,
                final(buf)@.subrange(old(buf)@.len() as int, final(buf)@.len() as int),
            ),
            r matches Err(e) ==> value_error(self@, self.transient_types(), encode_value, e),
            old(buf)@.len() <= final(buf)@.len(),
            final(buf)@.subrange(0, old(buf)@.len() as int) == old(buf)@,
            (forall|t: ErasedComponentType, v: u64, res: Result<Vec<u8>, PacketError>|
                #[trigger] encode_value.ensures((t, v), res) ==> res is Ok) ==> r is Ok,
    {
        let ghost c = self@;
        let ghost start = buf@;
        proof {
            self.lemma_contents();
        }
        let keys = opt_map_keys(&self.changed);
        proof {
            keys@.unique_seq_to_set();
        }
        let mut present: u64 = 0;
        let mut i: usize = 0;
        while i < keys.len()
            invariant
                i <= keys.len(),
                c == opt_map_contents(self.changed),
                keys@.to_set() == c.dom(),
                present == count_set(c, keys@.take(i as int)),
                present <= i,
            decreases keys.len() - i,
        {
            let k = keys[i];
            proof {
                assert(keys@.take(i + 1 as int).drop_last() =~= keys@.take(i as int));
                assert(keys@.take(i + 1 as int).last() == k);
                assert(keys@.to_set().contains(k));
            }
            match opt_map_get(&self.changed, k) {
                Some(Some(_)) => {
                    present = present + 1;
                },
                _ => {},
            }
            i = i + 1;
        }
        proof {
            assert(keys@.take(keys@.len() as int) =~= keys@);
        }
        let n = keys.len() as u64;
        write_var(buf, present);
        write_var(buf, n - present);
        let ghost header = buf@;
        let ghost mut vals: Seq<Vec<u8>> = Seq::empty();
        let mut i: usize = 0;
        while i < keys.len()
            invariant
                i <= keys.len(),
                c == opt_map_contents(self.changed),
                keys@.to_set() == c.dom(),
                forall|k: u64| self.flag_of(k) == u64_set_contents(self.transient).contains(k),
                forall|t: ErasedComponentType, v: u64| #[trigger] encode_value.requires((t, v)),
                vals.len() == i,
                start == old(buf)@,
                forall|j: int|
                    0 <= j < i && c[keys@[j]] is Some ==> encode_value.ensures(
                        (self.type_of(keys@[j]), c[keys@[j]]->0),
                        Ok::<Vec<u8>, PacketError>(#[trigger] vals[j]),
                    ),
                header == start + var_bytes(count_set(c, keys@)) + var_bytes(
                    (keys@.len() - count_set(c, keys@)) as nat,
                ),
                buf@ == header + set_entries_bytes(c, keys@.take(i as int), vals),
            decreases keys.len() - i,
        {
            let k = keys[i];
            proof {
                assert(keys@.take(i + 1 as int).drop_last() =~= keys@.take(i as int));
                assert(keys@.take(i + 1 as int).last() == k);
                assert(keys@.to_set().contains(k));
            }
            match opt_map_get(&self.changed, k) {
                Some(Some(v)) => {
                    write_var(buf, k);
                    let ty = ErasedComponentType { id: k, transient: u64_set_contains(&self.transient, k) };
                    match encode_value(ty, v) {
                        Ok(bytes) => {
                            let ghost b = bytes;
                            let mut bytes = bytes;
                            buf.append(&mut bytes);
                            proof {
                                assert(vals.push(b).drop_last() =~= vals);
                                vals = vals.push(b);
                            }
                        },
                        Err(e) => {
                            proof {
                                self.lemma_contents();
                                assert(ty.transient == self.transient_types().contains(k));
                                assert(c.contains_key(k) && c[k] is Some);
                                assert(buf@.len() >= header.len());
                                assert(buf@.subrange(0, start.len() as int) =~= start);
                            }
                            return Err(e);
                        },
                    }
                },
                _ => {
                    proof {
                        assert(vals.push(arbitrary()).drop_last() =~= vals);
                        vals = vals.push(arbitrary());
                    }
                },
            }
            i = i + 1;
        }
        let ghost middle = buf@;
        let mut i: usize = 0;
        while i < keys.len()
            invariant
                i <= keys.len(),
                c == opt_map_contents(self.changed),
                keys@.to_set() == c.dom(),
                buf@ == middle + removed_entries_bytes(c, keys@.take(i as int)),
            decreases keys.len() - i,
        {
            let k = keys[i];
            proof {
                assert(keys@.take(i + 1 as int).drop_last() =~= keys@.take(i as int));
                assert(keys@.take(i + 1 as int).last() == k);
                assert(keys@.to_set().contains(k));
            }
            match opt_map_get(&self.changed, k) {
                Some(None) => {
                    write_var(buf, k);
                },
                _ => {},
            }
            i = i + 1;
        }
        proof {
            assert(keys@.take(keys@.len() as int) =~= keys@);
            assert(buf@ =~= start + packet_bytes(c, keys@, vals));
            assert(buf@.subrange(0, start.len() as int) =~= start);
            assert(buf@.subrange(start.len() as int, buf@.len() as int) =~= packet_bytes(
                c,
                keys@,
                vals,
            ));
            assert(forall|j: int|
                0 <= j < keys@.len() && c[keys@[j]] is Some ==> encode_value.ensures(
                    (
                        ErasedComponentType {
                            id: keys@[j],
                            transient: self.transient_types().contains(keys@[j]),
                        },
                        c[keys@[j]]->0,
                    ),
                    Ok::<Vec<u8>, PacketError>(#[trigger] vals[j]),
                ));
        }
        Ok(())
    }
}

/// The header of the packet form of changes at the front of `buf`: the
/// number of components set, the number removed, and the length of the
/// header; each number is read as a 32-bit variable-length integer.
pub open spec fn packet_header(buf: Seq<u8>) -> (nat, nat, int) {
    match var_read(buf, 32) {
        VarRead::Value { value: set, len: l1 } => match var_read(
            buf.subrange(l1 as int, buf.len() as int),
            32,
        ) {
            VarRead::Value { value: removed, len: l2 } => (set, removed, (l1 + l2) as int),
            _ => (0, 0, 0),
        },
        _ => (0, 0, 0),
    }
}

/// The header of the packet form of changes at position `start` of `buf`:
/// the number of components set, the number removed, and the position
/// after the header.
pub open spec fn header_at(buf: Seq<u8>, start: int) -> (nat, nat, int) {
    let h = packet_header(buf.subrange(start, buf.len() as int));
    (h.0, h.1, start + h.2)
}

/// Whether the header at the front of `buf` can be read: both numbers are
/// well formed, and together they fit 32 bits.
pub open spec fn header_readable(buf: Seq<u8>) -> bool {
    match var_read(buf, 32) {
        VarRead::Value { value: set, len: l1 } => match var_read(
            buf.subrange(l1 as int, buf.len() as int),
            32,
        ) {
            VarRead::Value { value: removed, len: _ } => set + removed <= u32::MAX,
            _ => false,
        },
        _ => false,
    }
}

/// Whether decoding reads, at `pos` of `buf`, the id of a component type
/// that `lookup` resolves to `ty`, and ends at `end`.
pub open spec fn reads_removed<L: Fn(u64) -> Option<ErasedComponentType>>(
    buf: Seq<u8>,
    pos: int,
    lookup: L,
    ty: ErasedComponentType,
    end: int,
) -> bool {
    &&& 0 <= pos <= end <= buf.len()
    &&& var_read(buf.subrange(pos, buf.len() as int), 64) matches VarRead::Value { value, len }
        && end == pos + len && lookup.ensures((value as u64,), Some(ty))
}

/// Whether decoding reads, at `pos` of `buf`, the id of a component type
/// that `lookup` resolves to `ty`, then a value `v` that `decode_value`
/// reads after the id, and ends at `end`.
pub open spec fn reads_set<
    L: Fn(u64) -> Option<ErasedComponentType>,
    G: Fn(ErasedComponentType, &[u8], usize) -> Result<(u64, usize), PacketError>,
>(buf: &[u8], pos: int, lookup: L, decode_value: G, ty: ErasedComponentType, v: u64, end: int) -> bool {
    &&& 0 <= pos <= end <= buf@.len()
    &&& var_read(buf@.subrange(pos, buf@.len() as int), 64) matches VarRead::Value { value, len }
        && lookup.ensures((value as u64,), Some(ty)) && pos + len <= end
        && decode_value.ensures(
        (ty, buf, (pos + len) as usize),
        Ok::<(u64, usize), PacketError>((v, (end - pos - len) as usize)),
    )
}

/// Whether decoding reads the entries `es` in turn, the `i`-th from
/// `bounds[i]` to `bounds[i + 1]`: the first `set` entries set components,
/// the others remove them.
pub open spec fn reads_entries<
    L: Fn(u64) -> Option<ErasedComponentType>,
    G: Fn(ErasedComponentType, &[u8], usize) -> Result<(u64, usize), PacketError>,
>(
    buf: &[u8],
    lookup: L,
    decode_value: G,
    set: nat,
    es: Seq<(ErasedComponentType, Option<u64>)>,
    bounds: Seq<int>,
) -> bool {
    &&& bounds.len() == es.len() + 1
    &&& forall|i: int|
        0 <= i < es.len() ==> if i < set {
            &&& (#[trigger] es[i]).1 is Some
            &&& reads_set(buf, bounds[i], lookup, decode_value, es[i].0, es[i].1->0, bounds[i + 1])
        } else {
            &&& es[i].1 is None
            &&& reads_removed(buf@, bounds[i], lookup, es[i].0, bounds[i + 1])
        }
}

/// Whether reading an entry at `pos` fails with `e`: the bytes run out or
/// the id is too large for 64 bits, `lookup` knows no type of the id, or,
/// for an entry that sets a component, `decode_value` fails with `e`.
pub open spec fn fails_at<
    L: Fn(u64) -> Option<ErasedComponentType>,
    G: Fn(ErasedComponentType, &[u8], usize) -> Result<(u64, usize), PacketError>,
>(buf: &[u8], pos: int, sets: bool, lookup: L, decode_value: G, e: PacketError) -> bool {
    &&& 0 <= pos <= buf@.len()
    &&& match var_read(buf@.subrange(pos, buf@.len() as int), 64) {
        VarRead::RunsOut => e == PacketError::InvalidData,
        VarRead::TooLarge => e == PacketError::VarInt(VarIntError::TooLarge),
        VarRead::Value { value, len } => {
            ||| lookup.ensures((value as u64,), None::<ErasedComponentType>) && e
                == PacketError::InvalidData
            ||| sets && exists|ty: ErasedComponentType|
                lookup.ensures((value as u64,), Some(ty)) && #[trigger] decode_value.ensures(
                    (ty, buf, (pos + len) as usize),
                    Err::<(u64, usize), PacketError>(e),
                )
        },
    }
}

/// Whether decoding changes from position `start` of `buf` may give `c`
/// and end at `n`: the entries that the header announces are read in turn,
/// and `c` holds what they change, each type transient as the last entry of
/// it says, its serializable types being those that are not transient.
pub open spec fn decodes_to<
    L: Fn(u64) -> Option<ErasedComponentType>,
    G: Fn(ErasedComponentType, &[u8], usize) -> Result<(u64, usize), PacketError>,
>(buf: &[u8], start: int, lookup: L, decode_value: G, c: ComponentChanges, n: int) -> bool {
    exists|es: Seq<(ErasedComponentType, Option<u64>)>, bounds: Seq<int>|
        #![trigger reads_entries(buf, lookup, decode_value, header_at(buf@, start).0, es, bounds)]
        {
            &&& header_readable(buf@.subrange(start, buf@.len() as int))
            &&& es.len() == header_at(buf@, start).0 + header_at(buf@, start).1
            &&& bounds[0] == header_at(buf@, start).2
            &&& reads_entries(buf, lookup, decode_value, header_at(buf@, start).0, es, bounds)
            &&& n == bounds.last()
            &&& c.wf()
            &&& c@ == entry_changes(es)
            &&& forall|k: u64| #[trigger] c.flag_of(k) == entry_flag(es, k)
            &&& c.serializable_count() == serializable_types(
                c@,
                c.transient_types(),
            ).len()
        }
}

/// Whether decoding changes from position `start` of `buf` may fail with
/// `e`: the header cannot be read and `e` says the data is invalid; or
/// some of the entries that the header announces are read in turn, and
/// reading the next one fails with `e`.
pub open spec fn decode_fails<
    L: Fn(u64) -> Option<ErasedComponentType>,
    G: Fn(ErasedComponentType, &[u8], usize) -> Result<(u64, usize), PacketError>,
>(buf: &[u8], start: int, lookup: L, decode_value: G, e: PacketError) -> bool {
    ||| !header_readable(buf@.subrange(start, buf@.len() as int)) && e == PacketError::InvalidData
    ||| header_readable(buf@.subrange(start, buf@.len() as int)) && exists|es: Seq<(ErasedComponentType, Option<u64>)>, bounds: Seq<int>|
        #![trigger reads_entries(buf, lookup, decode_value, header_at(buf@, start).0, es, bounds)]
        {
            &&& es.len() < header_at(buf@, start).0 + header_at(buf@, start).1
            &&& bounds[0] == header_at(buf@, start).2
            &&& reads_entries(buf, lookup, decode_value, header_at(buf@, start).0, es, bounds)
            &&& fails_at(
                buf,
                bounds.last(),
                es.len() < header_at(buf@, start).0,
                lookup,
                decode_value,
                e,
            )
        }
}

/// The changes that decoded entries give: a later entry for a type
/// replaces an earlier one.
pub open spec fn entry_changes(es: Seq<(ErasedComponentType, Option<u64>)>) -> Map<
    u64,
    Option<u64>,
>
    decreases es.len(),
{
    if es.len() == 0 {
        Map::empty()
    } else {
        entry_changes(es.drop_last()).insert(es.last().0.id, es.last().1)
    }
}

/// Whether the last of the decoded entries of the type with id `k` says
/// the type is transient.
pub open spec fn entry_flag(es: Seq<(ErasedComponentType, Option<u64>)>, k: u64) -> bool
    decreases es.len(),
{
    if es.len() == 0 {
        false
    } else if es.last().0.id == k {
        es.last().0.transient
    } else {
        entry_flag(es.drop_last(), k)
    }
}

/// The number of types in the changes that the set of transient types
/// does not hold.
pub(crate) fn count_serializable(changed: &AHashMap<u64, Option<u64>>, transient: &AHashSet<u64>) -> (r: usize)
    requires
        opt_map_contents(*changed).dom().finite(),
    ensures
        r == serializable_types(opt_map_contents(*changed), u64_set_contents(*transient)).len(),
{
    let ghost c = opt_map_contents(*changed);
    let ghost t = u64_set_contents(*transient);
    let keys = opt_map_keys(changed);
    let mut count: usize = 0;
    let mut i: usize = 0;
    proof {
        keys@.unique_seq_to_set();
        assert(keys@.take(0).to_set() =~= Set::<u64>::empty());
        assert(not_in(Set::<u64>::empty(), t) =~= Set::<u64>::empty());
    }
    while i < keys.len()
        invariant
            i <= keys.len(),
            keys@.to_set() == c.dom(),
            keys@.no_duplicates(),
            c == opt_map_contents(*changed),
            t == u64_set_contents(*transient),
            count == not_in(keys@.take(i as int).to_set(), t).len(),
            count <= i,
        decreases keys.len() - i,
    {
        let k = keys[i];
        let ghost prefix = keys@.take(i as int).to_set();
        proof {
            assert(keys@.take(i + 1 as int) =~= keys@.take(i as int).push(k));
            keys@.take(i as int).lemma_push_to_set_commute(k);
            assert(!prefix.contains(k)) by {
                if prefix.contains(k) {
                    let j = choose|j: int| 0 <= j < i && keys@.take(i as int)[j] == k;
                    assert(keys@[j] == keys@[i as int]);
                }
            }
            if !t.contains(k) {
                assert(not_in(prefix.insert(k), t) =~= not_in(prefix, t).insert(k));
            } else {
                assert(not_in(prefix.insert(k), t) =~= not_in(prefix, t));
            }
        }
        if !u64_set_contains(transient, k) {
            count = count + 1;
        }
        i = i + 1;
    }
    proof {
        assert(keys@.take(keys.len() as int) =~= keys@);
    }
    count
}

impl ComponentChanges {
    /// Reads changes in their packet form from position `start` of the
    /// buffer and returns them with the position after them: the header, then each
    /// component set, as the id of its type, which `lookup` resolves, and
    /// its value, which `decode_value` reads from the given position of
    /// the buffer, then the id of each type removed. A later entry for a
    /// type replaces an earlier one; the types not transient count as
    /// serializable.
    ///
    /// Fails with `InvalidData` when the header cannot be read or announces
    /// more entries than 32 bits count, and otherwise at the first entry
    /// that cannot be read, as [`fails_at`] says.
    pub fn decode<L, G>(buf: &[u8], start: usize, lookup: L, decode_value: G) -> (r: Result<
        (ComponentChanges, usize),
        PacketError,
    >) where
        L: Fn(u64) -> Option<ErasedComponentType>,
        G: Fn(ErasedComponentType, &[u8], usize) -> Result<(u64, usize), PacketError>,

        requires
            start <= buf@.len(),
            forall|k: u64| #[trigger] lookup.requires((k,)),
            forall|t: ErasedComponentType, b: &[u8], p: usize| #[trigger]
                decode_value.requires((t, b, p)),
            forall|t: ErasedComponentType, b: &[u8], p: usize, v: u64, n: usize| #[trigger]
                decode_value.ensures((t, b, p), Ok::<(u64, usize), PacketError>((v, n))) ==> p + n
                    <= b@.len(),
        ensures
            r matches Ok((c, n)) ==> decodes_to(buf, start as int, lookup, decode_value, c, n as int),
            r matches Err(e) ==> decode_fails(buf, start as int, lookup, decode_value, e),
    {
        let front = &buf[start..buf.len()];
        if var_runs_out(front, 32) {
            return Err(PacketError::InvalidData);
        }
        let (set, l1) = match read_var(front, 32) {
            Ok(x) => x,
            Err(_) => {
                return Err(PacketError::InvalidData);
            },
        };
        let rest = &front[l1..front.len()];
        if var_runs_out(rest, 32) {
            return Err(PacketError::InvalidData);
        }
        let (removed, l2) = match read_var(rest, 32) {
            Ok(x) => x,
            Err(_) => {
                return Err(PacketError::InvalidData);
            },
        };
        let total: u64 = set + removed;
        if total > 0xFFFF_FFFF {
            return Err(PacketError::InvalidData);
        }
        let mut pos: usize = start + l1 + l2;
        let mut changed = opt_map_new();
        let mut transient = u64_set_new();
        let ghost mut es: Seq<(ErasedComponentType, Option<u64>)> = Seq::empty();
        let ghost mut bounds: Seq<int> = seq![pos as int];
        proof {
            assert(front@ == buf@.subrange(start as int, buf@.len() as int));
            assert(rest@ == front@.subrange(l1 as int, front@.len() as int));
            assert(packet_header(front@) == (set as nat, removed as nat, (l1 + l2) as int));
            assert(header_readable(front@));
        }
        let mut i: u64 = 0;
        while i < total
            invariant
                header_at(buf@, start as int) == (set as nat, removed as nat, bounds[0]),
                header_readable(buf@.subrange(start as int, buf@.len() as int)),
                total == set + removed,
                i <= total,
                es.len() == i,
                bounds.len() == i + 1,
                bounds.last() == pos as int,
                pos <= buf@.len(),
                reads_entries(buf, lookup, decode_value, set as nat, es, bounds),
                opt_map_contents(changed) == entry_changes(es),
                opt_map_contents(changed).dom().finite(),
                forall|k: u64| #[trigger]
                    u64_set_contents(transient).contains(k) == entry_flag(es, k),
                forall|k: u64| #[trigger] lookup.requires((k,)),
                forall|t: ErasedComponentType, b: &[u8], p: usize| #[trigger]
                    decode_value.requires((t, b, p)),
                forall|t: ErasedComponentType, b: &[u8], p: usize, v: u64, n: usize| #[trigger]
                    decode_value.ensures((t, b, p), Ok::<(u64, usize), PacketError>((v, n))) ==> p
                        + n <= b@.len(),
            decreases total - i,
        {
            let tail = &buf[pos..buf.len()];
            proof {
                assert(tail@ == buf@.subrange(pos as int, buf@.len() as int));
                assert(reads_entries(buf, lookup, decode_value, header_at(buf@, start as int).0, es, bounds));
            }
            if var_runs_out(tail, 64) {
                return Err(PacketError::InvalidData);
            }
            let (id, len) = match read_var(tail, 64) {
                Ok(x) => x,
                Err(e) => {
                    return Err(PacketError::VarInt(e));
                },
            };
            let ty = match lookup(id) {
                Some(t) => t,
                None => {
                    return Err(PacketError::InvalidData);
                },
            };
            let value = if i < set {
                match decode_value(ty, buf, pos + len) {
                    Ok((v, n)) => {
                        pos = pos + len + n;
                        Some(v)
                    },
                    Err(e) => {
                        proof {
                            assert(decode_value.ensures(
                                (ty, buf, (bounds.last() + len) as usize),
                                Err::<(u64, usize), PacketError>(e),
                            ));
                        }
                        return Err(e);
                    },
                }
            } else {
                pos = pos + len;
                None
            };
            record_flag(&mut transient, ty.id, ty.transient);
            opt_map_insert(&mut changed, ty.id, value);
            proof {
                let es0 = es;
                let b0 = bounds;
                es = es.push((ty, value));
                bounds = bounds.push(pos as int);
                assert(es.drop_last() =~= es0);
                assert forall|k: u64| #[trigger]
                    u64_set_contents(transient).contains(k) == entry_flag(es, k) by {}
                assert forall|j: int| 0 <= j < es.len() implies if j < set {
                    &&& (#[trigger] es[j]).1 is Some
                    &&& reads_set(buf, bounds[j], lookup, decode_value, es[j].0, es[j].1->0, bounds[j + 1])
                } else {
                    &&& es[j].1 is None
                    &&& reads_removed(buf@, bounds[j], lookup, es[j].0, bounds[j + 1])
                } by {
                    if j < es0.len() {
                        assert(es[j] == es0[j]);
                        assert(bounds[j] == b0[j]);
                        assert(bounds[j + 1] == b0[j + 1]);
                    } else {
                        assert(tail@ == buf@.subrange(bounds[j], buf@.len() as int));
                    }
                }
            }
            i = i + 1;
        }
        let ser_count = count_serializable(&changed, &transient);
        let c = ComponentChanges { changed, transient, ser_count };
        proof {
            c.lemma_contents();
            assert(reads_entries(buf, lookup, decode_value, header_at(buf@, start as int).0, es, bounds));
        }
        Ok((c, pos))
    }
}

/// The changes among `keys` that set components, in order: each type's id,
/// its value, and the bytes of the value from `vals`.
spec fn set_part(c: Map<u64, Option<u64>>, keys: Seq<u64>, vals: Seq<Vec<u8>>) -> Seq<
    (u64, u64, Vec<u8>),
>
    decreases keys.len(),
{
    if keys.len() == 0 {
        Seq::empty()
    } else {
        set_part(c, keys.drop_last(), vals.drop_last()) + if c[keys.last()] is Some {
            seq![(keys.last(), c[keys.last()]->0, vals.last())]
        } else {
            Seq::empty()
        }
    }
}

/// The types among `keys` that the changes remove, in order.
spec fn removed_part(c: Map<u64, Option<u64>>, keys: Seq<u64>) -> Seq<u64>
    decreases keys.len(),
{
    if keys.len() == 0 {
        Seq::empty()
    } else {
        removed_part(c, keys.drop_last()) + if c[keys.last()] is None {
            seq![keys.last()]
        } else {
            Seq::empty()
        }
    }
}

/// The bytes of entries that set components.
spec fn cat_set(s: Seq<(u64, u64, Vec<u8>)>) -> Seq<u8>
    decreases s.len(),
{
    if s.len() == 0 {
        Seq::empty()
    } else {
        cat_set(s.drop_last()) + var_bytes(s.last().0 as nat) + s.last().2@
    }
}

/// The bytes of entries that remove components.
spec fn cat_removed(s: Seq<u64>) -> Seq<u8>
    decreases s.len(),
{
    if s.len() == 0 {
        Seq::empty()
    } else {
        cat_removed(s.drop_last()) + var_bytes(s.last() as nat)
    }
}

/// The ids of entries that set components.
spec fn set_ids(s: Seq<(u64, u64, Vec<u8>)>) -> Seq<u64> {
    s.map_values(|e: (u64, u64, Vec<u8>)| e.0)
}

proof fn lemma_parts(c: Map<u64, Option<u64>>, keys: Seq<u64>, vals: Seq<Vec<u8>>)
    requires
        vals.len() == keys.len(),
        keys.no_duplicates(),
    ensures
        set_entries_bytes(c, keys, vals) == cat_set(set_part(c, keys, vals)),
        removed_entries_bytes(c, keys) == cat_removed(removed_part(c, keys)),
        count_set(c, keys) == set_part(c, keys, vals).len(),
        keys.len() - count_set(c, keys) == removed_part(c, keys).len(),
        forall|j: int|
            0 <= j < set_part(c, keys, vals).len() ==> exists|i: int|
                0 <= i < keys.len() && keys[i] == (#[trigger] set_part(c, keys, vals)[j]).0
                    && c[keys[i]] == Some(set_part(c, keys, vals)[j].1) && vals[i]
                    == set_part(c, keys, vals)[j].2,
        forall|j: int|
            0 <= j < removed_part(c, keys).len() ==> exists|i: int|
                0 <= i < keys.len() && keys[i] == #[trigger] removed_part(c, keys)[j] && c[keys[i]]
                    is None,
        forall|i: int|
            0 <= i < keys.len() && c[#[trigger] keys[i]] is Some ==> set_ids(
                set_part(c, keys, vals),
            ).contains(keys[i]),
        forall|i: int|
            0 <= i < keys.len() && c[#[trigger] keys[i]] is None ==> removed_part(c, keys).contains(
                keys[i],
            ),
        set_ids(set_part(c, keys, vals)).no_duplicates(),
        removed_part(c, keys).no_duplicates(),
    decreases keys.len(),
{
    if keys.len() > 0 {
        let ks = keys.drop_last();
        let vs = vals.drop_last();
        assert(ks.no_duplicates());
        lemma_parts(c, ks, vs);
        let sp = set_part(c, ks, vs);
        let rp = removed_part(c, ks);
        let k = keys.last();
        let n = keys.len() - 1;
        assert(!ks.contains(k)) by {
            if ks.contains(k) {
                let i = choose|i: int| 0 <= i < ks.len() && ks[i] == k;
                assert(keys[i] == keys[n]);
            }
        }
        if c[k] is Some {
            let x = (k, c[k]->0, vals.last());
            assert((sp + seq![x]).drop_last() =~= sp);
            assert(removed_part(c, keys) == rp);
            assert(set_part(c, keys, vals) == sp + seq![x]);
            assert(set_ids(sp + seq![x]) =~= set_ids(sp).push(k));
            assert forall|j: int| 0 <= j < set_part(c, keys, vals).len() implies exists|i: int|
                0 <= i < keys.len() && keys[i] == (#[trigger] set_part(c, keys, vals)[j]).0
                    && c[keys[i]] == Some(set_part(c, keys, vals)[j].1) && vals[i]
                    == set_part(c, keys, vals)[j].2 by {
                if j < sp.len() {
                    let i = choose|i: int|
                        0 <= i < ks.len() && ks[i] == (#[trigger] sp[j]).0 && c[ks[i]] == Some(
                            sp[j].1,
                        ) && vs[i] == sp[j].2;
                    assert(keys[i] == ks[i] && vals[i] == vs[i]);
                } else {
                    assert(keys[n] == k && vals[n] == vals.last());
                }
            }
            assert forall|j: int| 0 <= j < removed_part(c, keys).len() implies exists|i: int|
                0 <= i < keys.len() && keys[i] == #[trigger] removed_part(c, keys)[j]
                    && c[keys[i]] is None by {
                let i = choose|i: int| 0 <= i < ks.len() && ks[i] == #[trigger] rp[j] && c[ks[i]] is None;
                assert(keys[i] == ks[i]);
            }
            assert forall|i: int| 0 <= i < keys.len() && c[#[trigger] keys[i]] is Some implies set_ids(
                set_part(c, keys, vals),
            ).contains(keys[i]) by {
                if i < n {
                    assert(keys[i] == ks[i]);
                    assert(set_ids(sp).contains(ks[i]));
                    let j = choose|j: int| 0 <= j < set_ids(sp).len() && set_ids(sp)[j] == ks[i];
                    assert(set_ids(sp).push(k)[j] == ks[i]);
                } else {
                    assert(set_ids(sp).push(k)[set_ids(sp).len() as int] == k);
                }
            }
            assert forall|i: int| 0 <= i < keys.len() && c[#[trigger] keys[i]] is None implies removed_part(
                c,
                keys,
            ).contains(keys[i]) by {
                assert(i < n);
                assert(keys[i] == ks[i]);
            }
            assert(!set_ids(sp).contains(k)) by {
                if set_ids(sp).contains(k) {
                    let j = choose|j: int| 0 <= j < set_ids(sp).len() && set_ids(sp)[j] == k;
                    assert(sp[j].0 == k);
                    let i = choose|i: int|
                        0 <= i < ks.len() && ks[i] == (#[trigger] sp[j]).0 && c[ks[i]] == Some(
                            sp[j].1,
                        ) && vs[i] == sp[j].2;
                }
            }
        } else {
            assert((rp + seq![k]).drop_last() =~= rp);
            assert(set_part(c, keys, vals) == sp);
            assert(removed_part(c, keys) == rp + seq![k]);
            assert(set_entries_bytes(c, keys, vals) =~= set_entries_bytes(c, ks, vs));
            assert forall|j: int| 0 <= j < set_part(c, keys, vals).len() implies exists|i: int|
                0 <= i < keys.len() && keys[i] == (#[trigger] set_part(c, keys, vals)[j]).0
                    && c[keys[i]] == Some(set_part(c, keys, vals)[j].1) && vals[i]
                    == set_part(c, keys, vals)[j].2 by {
                let i = choose|i: int|
                    0 <= i < ks.len() && ks[i] == (#[trigger] sp[j]).0 && c[ks[i]] == Some(
                        sp[j].1,
                    ) && vs[i] == sp[j].2;
                assert(keys[i] == ks[i] && vals[i] == vs[i]);
            }
            assert forall|j: int| 0 <= j < removed_part(c, keys).len() implies exists|i: int|
                0 <= i < keys.len() && keys[i] == #[trigger] removed_part(c, keys)[j]
                    && c[keys[i]] is None by {
                if j < rp.len() {
                    let i = choose|i: int|
                        0 <= i < ks.len() && ks[i] == #[trigger] rp[j] && c[ks[i]] is None;
                    assert(keys[i] == ks[i]);
                } else {
                    assert(keys[n] == k);
                }
            }
            assert forall|i: int| 0 <= i < keys.len() && c[#[trigger] keys[i]] is Some implies set_ids(
                set_part(c, keys, vals),
            ).contains(keys[i]) by {
                assert(i < n);
                assert(keys[i] == ks[i]);
            }
            assert forall|i: int| 0 <= i < keys.len() && c[#[trigger] keys[i]] is None implies removed_part(
                c,
                keys,
            ).contains(keys[i]) by {
                if i < n {
                    assert(keys[i] == ks[i]);
                    assert(rp.contains(ks[i]));
                    let j = choose|j: int| 0 <= j < rp.len() && rp[j] == ks[i];
                    assert((rp + seq![k])[j] == ks[i]);
                } else {
                    assert((rp + seq![k])[rp.len() as int] == k);
                }
            }
            assert(!rp.contains(k)) by {
                if rp.contains(k) {
                    let j = choose|j: int| 0 <= j < rp.len() && rp[j] == k;
                    let i = choose|i: int| 0 <= i < ks.len() && ks[i] == #[trigger] rp[j] && c[ks[i]] is None;
                }
            }
        }
    }
}

proof fn lemma_cat_set_append(a: Seq<(u64, u64, Vec<u8>)>, b: Seq<(u64, u64, Vec<u8>)>)
    ensures
        cat_set(a + b) == cat_set(a) + cat_set(b),
    decreases b.len(),
{
    if b.len() == 0 {
        assert(a + b =~= a);
        assert(cat_set(a) + cat_set(b) =~= cat_set(a));
    } else {
        lemma_cat_set_append(a, b.drop_last());
        assert((a + b).drop_last() =~= a + b.drop_last());
        assert((a + b).last() == b.last());
        assert(cat_set(a + b) =~= cat_set(a) + cat_set(b));
    }
}

proof fn lemma_cat_removed_append(a: Seq<u64>, b: Seq<u64>)
    ensures
        cat_removed(a + b) == cat_removed(a) + cat_removed(b),
    decreases b.len(),
{
    if b.len() == 0 {
        assert(a + b =~= a);
        assert(cat_removed(a) + cat_removed(b) =~= cat_removed(a));
    } else {
        lemma_cat_removed_append(a, b.drop_last());
        assert((a + b).drop_last() =~= a + b.drop_last());
        assert((a + b).last() == b.last());
        assert(cat_removed(a + b) =~= cat_removed(a) + cat_removed(b));
    }
}

/// The bytes of entries that set components split at the `i`-th entry.
proof fn lemma_cat_set_split(s: Seq<(u64, u64, Vec<u8>)>, i: int)
    requires
        0 <= i < s.len(),
    ensures
        cat_set(s) == cat_set(s.take(i)) + var_bytes(s[i].0 as nat) + s[i].2@ + cat_set(
            s.skip(i + 1),
        ),
        cat_set(s.take(i + 1)) == cat_set(s.take(i)) + var_bytes(s[i].0 as nat) + s[i].2@,
{
    let x = seq![s[i]];
    assert(s =~= s.take(i) + x + s.skip(i + 1));
    lemma_cat_set_append(s.take(i) + x, s.skip(i + 1));
    lemma_cat_set_append(s.take(i), x);
    assert(x.drop_last() =~= Seq::<(u64, u64, Vec<u8>)>::empty());
    assert(cat_set(Seq::<(u64, u64, Vec<u8>)>::empty()) == Seq::<u8>::empty());
    assert(x.last() == s[i]);
    assert(cat_set(x) == cat_set(x.drop_last()) + var_bytes(s[i].0 as nat) + s[i].2@);
    assert(cat_set(x) =~= var_bytes(s[i].0 as nat) + s[i].2@);
    assert(s.take(i + 1) =~= s.take(i) + x);
    assert(cat_set(s) =~= cat_set(s.take(i)) + var_bytes(s[i].0 as nat) + s[i].2@ + cat_set(
        s.skip(i + 1),
    ));
}

/// The bytes of entries that remove components split at the `i`-th entry.
proof fn lemma_cat_removed_split(s: Seq<u64>, i: int)
    requires
        0 <= i < s.len(),
    ensures
        cat_removed(s) == cat_removed(s.take(i)) + var_bytes(s[i] as nat) + cat_removed(
            s.skip(i + 1),
        ),
        cat_removed(s.take(i + 1)) == cat_removed(s.take(i)) + var_bytes(s[i] as nat),
{
    let x = seq![s[i]];
    assert(s =~= s.take(i) + x + s.skip(i + 1));
    lemma_cat_removed_append(s.take(i) + x, s.skip(i + 1));
    lemma_cat_removed_append(s.take(i), x);
    assert(x.drop_last() =~= Seq::<u64>::empty());
    assert(cat_removed(Seq::<u64>::empty()) == Seq::<u8>::empty());
    assert(x.last() == s[i]);
    assert(cat_removed(x) == cat_removed(x.drop_last()) + var_bytes(s[i] as nat));
    assert(cat_removed(x) =~= var_bytes(s[i] as nat));
    assert(s.take(i + 1) =~= s.take(i) + x);
    assert(cat_removed(s) =~= cat_removed(s.take(i)) + var_bytes(s[i] as nat) + cat_removed(
        s.skip(i + 1),
    ));
}

/// Whether `lookup` resolves the id of each type of the changes `c` to that
/// type, transient when `transient` holds it, and to nothing else.
pub open spec fn resolves_types<L: Fn(u64) -> Option<ErasedComponentType>>(
    c: Map<u64, Option<u64>>,
    transient: Set<u64>,
    lookup: L,
) -> bool {
    forall|k: u64, r: Option<ErasedComponentType>|
        c.contains_key(k) && #[trigger] lookup.ensures((k,), r) ==> r == Some(
            ErasedComponentType { id: k, transient: transient.contains(k) },
        )
}

/// Whether `decode_value` reads back, from any position of any buffer,
/// the value whose bytes `encode_value` wrote there, whatever follows them.
pub open spec fn reads_back<
    F: Fn(ErasedComponentType, u64) -> Result<Vec<u8>, PacketError>,
    G: Fn(ErasedComponentType, &[u8], usize) -> Result<(u64, usize), PacketError>,
>(encode_value: F, decode_value: G) -> bool {
    forall|
        t: ErasedComponentType,
        v: u64,
        vb: Vec<u8>,
        b: &[u8],
        p: usize,
        res: Result<(u64, usize), PacketError>,
    |
        #![trigger encode_value.ensures((t, v), Ok::<Vec<u8>, PacketError>(vb)), decode_value.ensures((t, b, p), res)]
        encode_value.ensures((t, v), Ok::<Vec<u8>, PacketError>(vb)) && p + vb@.len() <= b@.len()
            && b@.subrange(p as int, p + vb@.len()) == vb@ && decode_value.ensures((t, b, p), res)
            ==> res == Ok::<(u64, usize), PacketError>((v, vb@.len() as usize))
}

/// A window of `s` that holds `p + x + q` from `a` on holds `x` after `p`.
pub(crate) proof fn lemma_window(s: Seq<u8>, a: int, p: Seq<u8>, x: Seq<u8>, q: Seq<u8>)
    requires
        0 <= a,
        a + p.len() + x.len() + q.len() <= s.len(),
        s.subrange(a, a + p.len() + x.len() + q.len()) == p + x + q,
    ensures
        s.subrange(a + p.len(), s.len() as int) == x + s.subrange(
            a + p.len() + x.len(),
            s.len() as int,
        ),
        s.subrange(a + p.len(), a + p.len() + x.len()) == x,
{
    let w = p + x + q;
    assert forall|t: int| 0 <= t < x.len() implies s[a + p.len() + t] == x[t] by {
        assert(s.subrange(a, a + w.len())[p.len() + t] == w[p.len() + t]);
    }
    assert(s.subrange(a + p.len(), s.len() as int) =~= x + s.subrange(
        a + p.len() + x.len(),
        s.len() as int,
    ));
    assert(s.subrange(a + p.len(), a + p.len() + x.len()) =~= x);
}

/// Where the `j`-th entry of the packet form starts, after a header that
/// ends at `base`, for the entries `set` that set components and `rm` that
/// remove them.
spec fn canon_pos(set: Seq<(u64, u64, Vec<u8>)>, rm: Seq<u64>, base: int, j: int) -> int {
    if j <= set.len() {
        base + cat_set(set.take(j)).len()
    } else {
        base + cat_set(set).len() + cat_removed(rm.take(j - set.len())).len()
    }
}

/// The `j`-th entry that decoding the packet form reads.
spec fn canon_entry(
    set: Seq<(u64, u64, Vec<u8>)>,
    rm: Seq<u64>,
    transient: Set<u64>,
    j: int,
) -> (ErasedComponentType, Option<u64>) {
    if j < set.len() {
        (
            ErasedComponentType { id: set[j].0, transient: transient.contains(set[j].0) },
            Some(set[j].1),
        )
    } else {
        let k = rm[j - set.len()];
        (ErasedComponentType { id: k, transient: transient.contains(k) }, None)
    }
}

/// In a buffer that holds the packet form `hd + cat_set(set) +
/// cat_removed(rm)` from `start`, the `j`-th entry starts with its type's
/// id; an entry that sets a component holds the bytes of the value after
/// the id.
proof fn lemma_entry_at(
    buf: Seq<u8>,
    start: int,
    hd: Seq<u8>,
    set: Seq<(u64, u64, Vec<u8>)>,
    rm: Seq<u64>,
    j: int,
)
    requires
        0 <= start,
        start + hd.len() + cat_set(set).len() + cat_removed(rm).len() <= buf.len(),
        buf.subrange(start, start + hd.len() + cat_set(set).len() + cat_removed(rm).len()) == hd
            + cat_set(set) + cat_removed(rm),
        0 <= j < set.len() + rm.len(),
    ensures
        ({
            let pos = canon_pos(set, rm, start + hd.len(), j);
            let id = if j < set.len() {
                set[j].0
            } else {
                rm[j - set.len()]
            };
            let len = var_bytes(id as nat).len();
            &&& var_read(buf.subrange(pos, buf.len() as int), 64) == (VarRead::Value {
                value: id as nat,
                len,
            })
            &&& j < set.len() ==> {
                &&& pos + len + set[j].2@.len() <= buf.len()
                &&& buf.subrange(pos + len, pos + len + set[j].2@.len()) == set[j].2@
                &&& canon_pos(set, rm, start + hd.len(), j + 1) == pos + len + set[j].2@.len()
            }
            &&& j >= set.len() ==> canon_pos(set, rm, start + hd.len(), j + 1) == pos + len
            &&& pos + len <= buf.len()
        }),
{
    let base = start + hd.len();
    let cs = cat_set(set);
    let cr = cat_removed(rm);
    if j < set.len() {
        lemma_cat_set_split(set, j);
        let a = cat_set(set.take(j));
        let k = set[j].0;
        let vb = set[j].2@;
        let tail = cat_set(set.skip(j + 1)) + cr;
        assert(hd + cs + cr =~= (hd + a) + (var_bytes(k as nat) + vb) + tail);
        lemma_window(buf, start, hd + a, var_bytes(k as nat) + vb, tail);
        assert(hd + cs + cr =~= (hd + a + var_bytes(k as nat)) + vb + tail);
        lemma_window(buf, start, hd + a + var_bytes(k as nat), vb, tail);
        let pos = base + a.len();
        let rest = buf.subrange(pos + var_bytes(k as nat).len() + vb.len(), buf.len() as int);
        assert(buf.subrange(pos, buf.len() as int) =~= var_bytes(k as nat) + (vb + rest));
        lemma_var_roundtrip(k as nat, 64, vb + rest);
        assert(set.take(j + 1).len() == j + 1);
    } else {
        let i = j - set.len();
        lemma_cat_removed_split(rm, i);
        let a = cat_removed(rm.take(i));
        let k = rm[i];
        let tail = cat_removed(rm.skip(i + 1));
        assert(hd + cs + cr =~= (hd + cs + a) + var_bytes(k as nat) + tail);
        lemma_window(buf, start, hd + cs + a, var_bytes(k as nat), tail);
        assert(set.take(set.len() as int) =~= set);
        let pos = base + cs.len() + a.len();
        let rest = buf.subrange(pos + var_bytes(k as nat).len(), buf.len() as int);
        assert(buf.subrange(pos, buf.len() as int) =~= var_bytes(k as nat) + rest);
        lemma_var_roundtrip(k as nat, 64, rest);
    }
}

/// Whether `keys` lists the types of the changes `c` once each and `vals`
/// holds, for each type set, bytes that `encode_value` may give for its
/// value.
spec fn lists_encoded<F: Fn(ErasedComponentType, u64) -> Result<Vec<u8>, PacketError>>(
    c: Map<u64, Option<u64>>,
    transient: Set<u64>,
    encode_value: F,
    keys: Seq<u64>,
    vals: Seq<Vec<u8>>,
) -> bool {
    &&& keys.to_set() == c.dom()
    &&& keys.no_duplicates()
    &&& vals.len() == keys.len()
    &&& forall|i: int|
        0 <= i < keys.len() && c[keys[i]] is Some ==> encode_value.ensures(
            (ErasedComponentType { id: keys[i], transient: transient.contains(keys[i]) }, c[keys[i]]->0),
            Ok::<Vec<u8>, PacketError>(#[trigger] vals[i]),
        )
}

/// Entries read from a packet form, one after another, are the entries
/// that it was written from.
proof fn lemma_reads_canonical<
    F: Fn(ErasedComponentType, u64) -> Result<Vec<u8>, PacketError>,
    L: Fn(u64) -> Option<ErasedComponentType>,
    G: Fn(ErasedComponentType, &[u8], usize) -> Result<(u64, usize), PacketError>,
>(
    buf: &[u8],
    start: int,
    c: Map<u64, Option<u64>>,
    transient: Set<u64>,
    encode_value: F,
    lookup: L,
    decode_value: G,
    keys: Seq<u64>,
    vals: Seq<Vec<u8>>,
    es: Seq<(ErasedComponentType, Option<u64>)>,
    bounds: Seq<int>,
    j: int,
)
    requires
        lists_encoded(c, transient, encode_value, keys, vals),
        ({
            let set = set_part(c, keys, vals);
            let rm = removed_part(c, keys);
            let hd = var_bytes(set.len()) + var_bytes(rm.len());
            &&& 0 <= start
            &&& start + hd.len() + cat_set(set).len() + cat_removed(rm).len() <= buf@.len()
            &&& buf@.subrange(
                start,
                start + hd.len() + cat_set(set).len() + cat_removed(rm).len(),
            ) == hd + cat_set(set) + cat_removed(rm)
            &&& reads_entries(buf, lookup, decode_value, set.len(), es, bounds)
            &&& bounds[0] == start + hd.len()
            &&& es.len() <= set.len() + rm.len()
        }),
        resolves_types(c, transient, lookup),
        reads_back(encode_value, decode_value),
        buf@.len() <= usize::MAX,
        0 <= j <= es.len(),
    ensures
        ({
            let set = set_part(c, keys, vals);
            let rm = removed_part(c, keys);
            let base = start + var_bytes(set.len()).len() + var_bytes(rm.len()).len();
            &&& forall|i: int| 0 <= i <= j ==> bounds[i] == canon_pos(set, rm, base, i)
            &&& forall|i: int| 0 <= i < j ==> es[i] == canon_entry(set, rm, transient, i)
        }),
    decreases j,
{
    let set = set_part(c, keys, vals);
    let rm = removed_part(c, keys);
    let hd = var_bytes(set.len()) + var_bytes(rm.len());
    let base = start + hd.len();
    lemma_parts(c, keys, vals);
    if j == 0 {
        assert(set.take(0) =~= Seq::<(u64, u64, Vec<u8>)>::empty());
        assert(canon_pos(set, rm, base, 0) == base);
    } else {
        let i = j - 1;
        lemma_reads_canonical(
            buf,
            start,
            c,
            transient,
            encode_value,
            lookup,
            decode_value,
            keys,
            vals,
            es,
            bounds,
            i,
        );
        lemma_entry_at(buf@, start, hd, set, rm, i);
        let e = es[i];
        let pos = bounds[i];
        assert(pos == canon_pos(set, rm, base, i));
        if i < set.len() {
            assert(reads_set(buf, bounds[i], lookup, decode_value, e.0, e.1->0, bounds[i + 1]));
            let k = set[i].0;
            let len = var_bytes(k as nat).len();
            assert(lookup.ensures((k,), Some(e.0)));
            let idx = choose|idx: int|
                0 <= idx < keys.len() && keys[idx] == (#[trigger] set[i]).0 && c[keys[idx]]
                    == Some(set[i].1) && vals[idx] == set[i].2;
            assert(keys.to_set().contains(keys[idx]));
            assert(e.0 == ErasedComponentType { id: k, transient: transient.contains(k) });
            assert(encode_value.ensures(
                (e.0, set[i].1),
                Ok::<Vec<u8>, PacketError>(set[i].2),
            ));
            let res = Ok::<(u64, usize), PacketError>(
                (e.1->0, (bounds[i + 1] - pos - len) as usize),
            );
            let p = (pos + len) as usize;
            assert(p as int == pos + len);
            assert(decode_value.ensures((e.0, buf, p), res));
            assert(p + set[i].2@.len() <= buf@.len());
            assert(buf@.subrange(p as int, p + set[i].2@.len()) == set[i].2@);
            assert(res == Ok::<(u64, usize), PacketError>((set[i].1, set[i].2@.len() as usize)));
            assert(bounds[i + 1] == canon_pos(set, rm, base, j));
        } else {
            assert(reads_removed(buf@, bounds[i], lookup, e.0, bounds[i + 1]));
            let k = rm[i - set.len()];
            assert(lookup.ensures((k,), Some(e.0)));
            let idx = choose|idx: int|
                0 <= idx < keys.len() && keys[idx] == #[trigger] rm[i - set.len()] && c[keys[idx]]
                    is None;
            assert(keys.to_set().contains(keys[idx]));
        }
    }
}

/// Entries with distinct types change each type to its entry's change.
proof fn lemma_entry_changes_distinct(es: Seq<(ErasedComponentType, Option<u64>)>)
    requires
        forall|i: int, j: int|
            0 <= i < es.len() && 0 <= j < es.len() && i != j ==> (#[trigger] es[i]).0.id != (
            #[trigger] es[j]).0.id,
    ensures
        forall|k: u64|
            #[trigger] entry_changes(es).contains_key(k) <==> exists|i: int|
                0 <= i < es.len() && es[i].0.id == k,
        forall|i: int|
            0 <= i < es.len() ==> entry_changes(es)[(#[trigger] es[i]).0.id] == es[i].1,
    decreases es.len(),
{
    if es.len() > 0 {
        let t = es.drop_last();
        lemma_entry_changes_distinct(t);
        let last = es.last();
        assert(entry_changes(es) == entry_changes(t).insert(last.0.id, last.1));
        assert forall|k: u64|
            #[trigger] entry_changes(es).contains_key(k) <==> exists|i: int|
                0 <= i < es.len() && es[i].0.id == k by {
            if entry_changes(es).contains_key(k) && k != last.0.id {
                let i = choose|i: int| 0 <= i < t.len() && t[i].0.id == k;
                assert(es[i] == t[i]);
            }
            if entry_changes(es).contains_key(k) && k == last.0.id {
                assert(es[es.len() - 1].0.id == k);
            }
            if exists|i: int| 0 <= i < es.len() && es[i].0.id == k {
                let i = choose|i: int| 0 <= i < es.len() && es[i].0.id == k;
                if i < es.len() - 1 {
                    assert(t[i] == es[i]);
                }
            }
        }
        assert forall|i: int| 0 <= i < es.len() implies entry_changes(es)[(
        #[trigger] es[i]).0.id] == es[i].1 by {
            if i < es.len() - 1 {
                assert(t[i] == es[i]);
                assert(es[i].0.id != es[es.len() - 1].0.id);
            }
        }
    }
}

/// When every entry's type is transient as `transient` says, the flag of
/// each type among the entries is what `transient` says.
proof fn lemma_entry_flag(es: Seq<(ErasedComponentType, Option<u64>)>, transient: Set<u64>)
    requires
        forall|i: int|
            0 <= i < es.len() ==> (#[trigger] es[i]).0.transient == transient.contains(es[i].0.id),
    ensures
        forall|i: int|
            0 <= i < es.len() ==> entry_flag(es, (#[trigger] es[i]).0.id) == transient.contains(
                es[i].0.id,
            ),
    decreases es.len(),
{
    if es.len() > 0 {
        let t = es.drop_last();
        assert forall|i: int| 0 <= i < t.len() implies (#[trigger] t[i]).0.transient
            == transient.contains(t[i].0.id) by {
            assert(t[i] == es[i]);
        }
        lemma_entry_flag(t, transient);
        assert forall|i: int| 0 <= i < es.len() implies entry_flag(es, (#[trigger] es[i]).0.id)
            == transient.contains(es[i].0.id) by {
            if es[i].0.id != es.last().0.id {
                assert(t[i] == es[i]);
            }
        }
    }
}

/// The header of a packet form of `set` components set and `rm` removed,
/// placed at `start` of `buf`, reads back the two numbers.
proof fn lemma_header(buf: Seq<u8>, start: int, set: nat, rm: nat, body: Seq<u8>)
    requires
        set + rm <= u32::MAX,
        0 <= start,
        start + var_bytes(set).len() + var_bytes(rm).len() + body.len() <= buf.len(),
        buf.subrange(start, start + var_bytes(set).len() + var_bytes(rm).len() + body.len())
            == var_bytes(set) + var_bytes(rm) + body,
    ensures
        header_readable(buf.subrange(start, buf.len() as int)),
        header_at(buf, start) == (set, rm, start + var_bytes(set).len() + var_bytes(rm).len()),
{
    let hs = var_bytes(set);
    let hr = var_bytes(rm);
    assert(hs + hr + body =~= Seq::<u8>::empty() + hs + (hr + body));
    lemma_window(buf, start, Seq::<u8>::empty(), hs, hr + body);
    let front = buf.subrange(start, buf.len() as int);
    let after = buf.subrange(start + hs.len(), buf.len() as int);
    assert(front =~= hs + after);
    lemma_var_roundtrip(set, 32, after);
    lemma_window(buf, start, hs, hr, body);
    let after2 = buf.subrange(start + hs.len() + hr.len(), buf.len() as int);
    assert(front.subrange(hs.len() as int, front.len() as int) =~= hr + after2);
    lemma_var_roundtrip(rm, 32, after2);
}

/// The entries that a packet form is written from change exactly what the
/// changes hold, each type transient as `transient` says.
proof fn lemma_canon_changes<F: Fn(ErasedComponentType, u64) -> Result<Vec<u8>, PacketError>>(
    c: Map<u64, Option<u64>>,
    transient: Set<u64>,
    encode_value: F,
    keys: Seq<u64>,
    vals: Seq<Vec<u8>>,
)
    requires
        lists_encoded(c, transient, encode_value, keys, vals),
    ensures
        ({
            let set = set_part(c, keys, vals);
            let rm = removed_part(c, keys);
            let ce = Seq::new(
                (set.len() + rm.len()) as nat,
                |j: int| canon_entry(set, rm, transient, j),
            );
            &&& entry_changes(ce) == c
            &&& forall|k: u64| #[trigger] c.contains_key(k) ==> entry_flag(ce, k) == transient.contains(k)
        }),
{
    lemma_parts(c, keys, vals);
    let set = set_part(c, keys, vals);
    let rm = removed_part(c, keys);
    let total = (set.len() + rm.len()) as nat;
    let ce = Seq::new(total, |j: int| canon_entry(set, rm, transient, j));
    assert forall|i: int, j: int|
        0 <= i < ce.len() && 0 <= j < ce.len() && i != j implies (#[trigger] ce[i]).0.id != (
        #[trigger] ce[j]).0.id by {
        let si = set_ids(set);
        if i < set.len() && j < set.len() {
            assert(si[i] == set[i].0 && si[j] == set[j].0);
        } else if i >= set.len() && j >= set.len() {
        } else if i < set.len() {
            let a = choose|a: int|
                0 <= a < keys.len() && keys[a] == (#[trigger] set[i]).0 && c[keys[a]] == Some(
                    set[i].1,
                ) && vals[a] == set[i].2;
            let b = choose|b: int|
                0 <= b < keys.len() && keys[b] == #[trigger] rm[j - set.len()] && c[keys[b]] is None;
        } else {
            let a = choose|a: int|
                0 <= a < keys.len() && keys[a] == (#[trigger] set[j]).0 && c[keys[a]] == Some(
                    set[j].1,
                ) && vals[a] == set[j].2;
            let b = choose|b: int|
                0 <= b < keys.len() && keys[b] == #[trigger] rm[i - set.len()] && c[keys[b]] is None;
        }
    }
    lemma_entry_changes_distinct(ce);
    assert forall|i: int| 0 <= i < ce.len() implies (#[trigger] ce[i]).0.transient
        == transient.contains(ce[i].0.id) by {}
    lemma_entry_flag(ce, transient);
    assert forall|k: u64| #[trigger] c.contains_key(k) implies entry_changes(ce).contains_key(k)
        && entry_changes(ce)[k] == c[k] by {
        assert(keys.to_set().contains(k));
        let a = choose|a: int| 0 <= a < keys.len() && keys[a] == k;
        if c[k] is Some {
            assert(set_ids(set).contains(keys[a]));
            let j = choose|j: int| 0 <= j < set_ids(set).len() && set_ids(set)[j] == k;
            assert(ce[j].0.id == k);
            let b = choose|b: int|
                0 <= b < keys.len() && keys[b] == (#[trigger] set[j]).0 && c[keys[b]] == Some(
                    set[j].1,
                ) && vals[b] == set[j].2;
        } else {
            assert(rm.contains(keys[a]));
            let j = choose|j: int| 0 <= j < rm.len() && rm[j] == k;
            assert(ce[set.len() + j].0.id == k);
        }
    }
    assert forall|k: u64| #[trigger] entry_changes(ce).contains_key(k) implies c.contains_key(k) by {
        let i = choose|i: int| 0 <= i < ce.len() && ce[i].0.id == k;
        if i < set.len() {
            let b = choose|b: int|
                0 <= b < keys.len() && keys[b] == (#[trigger] set[i]).0 && c[keys[b]] == Some(
                    set[i].1,
                ) && vals[b] == set[i].2;
            assert(keys.to_set().contains(keys[b]));
        } else {
            let b = choose|b: int|
                0 <= b < keys.len() && keys[b] == #[trigger] rm[i - set.len()] && c[keys[b]]
                    is None;
            assert(keys.to_set().contains(keys[b]));
        }
    }
    assert(entry_changes(ce) =~= c);
    assert forall|k: u64| #[trigger] c.contains_key(k) implies entry_flag(ce, k)
        == transient.contains(k) by {
        let i = choose|i: int| 0 <= i < ce.len() && ce[i].0.id == k;
        assert(entry_flag(ce, ce[i].0.id) == transient.contains(ce[i].0.id));
    }
}

/// Decoding a packet form cannot fail.
proof fn lemma_packet_no_failure<
    F: Fn(ErasedComponentType, u64) -> Result<Vec<u8>, PacketError>,
    L: Fn(u64) -> Option<ErasedComponentType>,
    G: Fn(ErasedComponentType, &[u8], usize) -> Result<(u64, usize), PacketError>,
>(
    buf: &[u8],
    start: int,
    c: Map<u64, Option<u64>>,
    transient: Set<u64>,
    encode_value: F,
    lookup: L,
    decode_value: G,
    keys: Seq<u64>,
    vals: Seq<Vec<u8>>,
    e: PacketError,
)
    requires
        lists_encoded(c, transient, encode_value, keys, vals),
        ({
            let set = set_part(c, keys, vals);
            let rm = removed_part(c, keys);
            let hd = var_bytes(set.len()) + var_bytes(rm.len());
            &&& 0 <= start
            &&& start + hd.len() + cat_set(set).len() + cat_removed(rm).len() <= buf@.len()
            &&& buf@.subrange(
                start,
                start + hd.len() + cat_set(set).len() + cat_removed(rm).len(),
            ) == hd + cat_set(set) + cat_removed(rm)
            &&& header_at(buf@, start) == (set.len(), rm.len(), start + hd.len())
        }),
        resolves_types(c, transient, lookup),
        reads_back(encode_value, decode_value),
        buf@.len() <= usize::MAX,
        header_readable(buf@.subrange(start, buf@.len() as int)),
    ensures
        !decode_fails(buf, start, lookup, decode_value, e),
{
    lemma_parts(c, keys, vals);
    let set = set_part(c, keys, vals);
    let rm = removed_part(c, keys);
    let hd = var_bytes(set.len()) + var_bytes(rm.len());
    if decode_fails(buf, start, lookup, decode_value, e) {
        let (es, bounds) = choose|es: Seq<(ErasedComponentType, Option<u64>)>, bounds: Seq<int>|
            {
                &&& es.len() < header_at(buf@, start).0 + header_at(buf@, start).1
                &&& bounds[0] == header_at(buf@, start).2
                &&& reads_entries(buf, lookup, decode_value, header_at(buf@, start).0, es, bounds)
                &&& fails_at(
                    buf,
                    bounds.last(),
                    es.len() < header_at(buf@, start).0,
                    lookup,
                    decode_value,
                    e,
                )
            };
        let m = es.len() as int;
        lemma_reads_canonical(
            buf,
            start,
            c,
            transient,
            encode_value,
            lookup,
            decode_value,
            keys,
            vals,
            es,
            bounds,
            m,
        );
        lemma_entry_at(buf@, start, hd, set, rm, m);
        let pos = bounds[m];
        if m < set.len() {
            let k = set[m].0;
            let len = var_bytes(k as nat).len();
            let b = choose|b: int|
                0 <= b < keys.len() && keys[b] == (#[trigger] set[m]).0 && c[keys[b]] == Some(
                    set[m].1,
                ) && vals[b] == set[m].2;
            assert(keys.to_set().contains(keys[b]));
            if lookup.ensures((k,), None::<ErasedComponentType>) {
                assert(false);
            } else {
                let ty = choose|ty: ErasedComponentType|
                    lookup.ensures((k,), Some(ty)) && #[trigger] decode_value.ensures(
                        (ty, buf, (pos + len) as usize),
                        Err::<(u64, usize), PacketError>(e),
                    );
                let p = (pos + len) as usize;
                assert(p as int == pos + len);
                assert(encode_value.ensures((ty, set[m].1), Ok::<Vec<u8>, PacketError>(set[m].2)));
                assert(decode_value.ensures((ty, buf, p), Err::<(u64, usize), PacketError>(e)));
                assert(buf@.subrange(p as int, p + set[m].2@.len()) == set[m].2@);
                assert(false);
            }
        } else {
            let k = rm[m - set.len()];
            let b = choose|b: int|
                0 <= b < keys.len() && keys[b] == #[trigger] rm[m - set.len()] && c[keys[b]] is None;
            assert(keys.to_set().contains(keys[b]));
            assert(lookup.ensures((k,), None::<ErasedComponentType>));
            assert(false);
        }
    }
}

/// Decoding a packet form gives back the changes it was written from.
proof fn lemma_packet_decodes<
    F: Fn(ErasedComponentType, u64) -> Result<Vec<u8>, PacketError>,
    L: Fn(u64) -> Option<ErasedComponentType>,
    G: Fn(ErasedComponentType, &[u8], usize) -> Result<(u64, usize), PacketError>,
>(
    buf: &[u8],
    start: int,
    c: Map<u64, Option<u64>>,
    transient: Set<u64>,
    encode_value: F,
    lookup: L,
    decode_value: G,
    keys: Seq<u64>,
    vals: Seq<Vec<u8>>,
    c2: ComponentChanges,
    n: int,
)
    requires
        lists_encoded(c, transient, encode_value, keys, vals),
        ({
            let set = set_part(c, keys, vals);
            let rm = removed_part(c, keys);
            let hd = var_bytes(set.len()) + var_bytes(rm.len());
            &&& 0 <= start
            &&& start + hd.len() + cat_set(set).len() + cat_removed(rm).len() <= buf@.len()
            &&& buf@.subrange(
                start,
                start + hd.len() + cat_set(set).len() + cat_removed(rm).len(),
            ) == hd + cat_set(set) + cat_removed(rm)
            &&& header_at(buf@, start) == (set.len(), rm.len(), start + hd.len())
        }),
        resolves_types(c, transient, lookup),
        reads_back(encode_value, decode_value),
        buf@.len() <= usize::MAX,
        decodes_to(buf, start, lookup, decode_value, c2, n),
    ensures
        c2@ == c,
        n == start + var_bytes(set_part(c, keys, vals).len()).len() + var_bytes(
            removed_part(c, keys).len(),
        ).len() + cat_set(set_part(c, keys, vals)).len() + cat_removed(
            removed_part(c, keys),
        ).len(),
        forall|k: u64| #[trigger] c.contains_key(k) ==> c2.flag_of(k) == transient.contains(k),
{
    lemma_parts(c, keys, vals);
    let set = set_part(c, keys, vals);
    let rm = removed_part(c, keys);
    let hd = var_bytes(set.len()) + var_bytes(rm.len());
    let base = start + hd.len();
    let total = (set.len() + rm.len()) as nat;
    let ce = Seq::new(total, |j: int| canon_entry(set, rm, transient, j));
    lemma_canon_changes(c, transient, encode_value, keys, vals);
    let (es, bounds) = choose|es: Seq<(ErasedComponentType, Option<u64>)>, bounds: Seq<int>|
        {
            &&& header_readable(buf@.subrange(start, buf@.len() as int))
            &&& es.len() == header_at(buf@, start).0 + header_at(buf@, start).1
            &&& bounds[0] == header_at(buf@, start).2
            &&& reads_entries(buf, lookup, decode_value, header_at(buf@, start).0, es, bounds)
            &&& n == bounds.last()
            &&& c2.wf()
            &&& c2@ == entry_changes(es)
            &&& forall|k: u64| #[trigger] c2.flag_of(k) == entry_flag(es, k)
            &&& c2.serializable_count() == serializable_types(c2@, c2.transient_types()).len()
        };
    lemma_reads_canonical(
        buf,
        start,
        c,
        transient,
        encode_value,
        lookup,
        decode_value,
        keys,
        vals,
        es,
        bounds,
        es.len() as int,
    );
    assert(es =~= ce);
    assert(rm.take(rm.len() as int) =~= rm);
    assert(set.take(set.len() as int) =~= set);
    if rm.len() == 0 {
        assert(rm =~= Seq::<u64>::empty());
        assert(cat_removed(rm).len() == 0);
    }
    assert(n == canon_pos(set, rm, base, total as int));
}

/// Decoding what encoding wrote gives the changes back.
///
/// Where `bytes` is a packet form of the changes `c` (what
/// [`ComponentChanges::encode`] appends), placed at position `start` of a
/// buffer, with anything after it, decoding from `start` cannot fail, and
/// whatever changes it gives hold exactly what `c` holds, each type as
/// transient as it was, and end where `bytes` ends; provided that `lookup`
/// resolves each type's id to that type, that `decode_value` reads back
/// what `encode_value` wrote, and that the changes are few enough for
/// their counts to fit 32 bits.
pub proof fn lemma_changes_packet_roundtrip<
    F: Fn(ErasedComponentType, u64) -> Result<Vec<u8>, PacketError>,
    L: Fn(u64) -> Option<ErasedComponentType>,
    G: Fn(ErasedComponentType, &[u8], usize) -> Result<(u64, usize), PacketError>,
>(
    c: Map<u64, Option<u64>>,
    transient: Set<u64>,
    encode_value: F,
    lookup: L,
    decode_value: G,
    bytes: Seq<u8>,
    buf: &[u8],
    start: int,
)
    requires
        packet_form(c, transient, encode_value, bytes),
        c.dom().len() <= u32::MAX,
        0 <= start,
        start + bytes.len() <= buf@.len() <= usize::MAX,
        buf@.subrange(start, start + bytes.len()) == bytes,
        resolves_types(c, transient, lookup),
        reads_back(encode_value, decode_value),
    ensures
        header_readable(buf@.subrange(start, buf@.len() as int)),
        forall|e: PacketError| !decode_fails(buf, start, lookup, decode_value, e),
        forall|c2: ComponentChanges, n: int|
            #[trigger] decodes_to(buf, start, lookup, decode_value, c2, n) ==> {
                &&& c2@ == c
                &&& n == start + bytes.len()
                &&& forall|k: u64| #[trigger] c.contains_key(k) ==> c2.flag_of(k) == transient.contains(k)
            },
{
    let (keys, vals) = choose|keys: Seq<u64>, vals: Seq<Vec<u8>>|
        {
            &&& keys.to_set() == c.dom()
            &&& keys.no_duplicates()
            &&& vals.len() == keys.len()
            &&& forall|i: int|
                0 <= i < keys.len() && c[keys[i]] is Some ==> encode_value.ensures(
                    (ErasedComponentType { id: keys[i], transient: transient.contains(keys[i]) }, c[keys[i]]->0),
                    Ok::<Vec<u8>, PacketError>(#[trigger] vals[i]),
                )
            &&& bytes == packet_bytes(c, keys, vals)
        };
    assert(lists_encoded(c, transient, encode_value, keys, vals));
    lemma_parts(c, keys, vals);
    keys.unique_seq_to_set();
    let set = set_part(c, keys, vals);
    let rm = removed_part(c, keys);
    let hd = var_bytes(set.len()) + var_bytes(rm.len());
    let body = cat_set(set) + cat_removed(rm);
    assert(bytes =~= hd + cat_set(set) + cat_removed(rm));
    assert(bytes =~= var_bytes(set.len()) + var_bytes(rm.len()) + body);
    lemma_header(buf@, start, set.len(), rm.len(), body);
    assert forall|e: PacketError| !decode_fails(buf, start, lookup, decode_value, e) by {
        lemma_packet_no_failure(
            buf,
            start,
            c,
            transient,
            encode_value,
            lookup,
            decode_value,
            keys,
            vals,
            e,
        );
    }
    assert forall|c2: ComponentChanges, n: int|
        #[trigger] decodes_to(buf, start, lookup, decode_value, c2, n) implies {
        &&& c2@ == c
        &&& n == start + bytes.len()
        &&& forall|k: u64| #[trigger] c.contains_key(k) ==> c2.flag_of(k) == transient.contains(k)
    } by {
        lemma_packet_decodes(
            buf,
            start,
            c,
            transient,
            encode_value,
            lookup,
            decode_value,
            keys,
            vals,
            c2,
            n,
        );
    }
}

} // verus!
