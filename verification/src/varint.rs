//! Variable-length integers.
//!
//! An unsigned value is written seven bits at a time, least significant group
//! first; every byte but the last has its high bit set. Signed values are
//! written as the unsigned value of the same width with the same bits.

use vstd::prelude::*;

verus! {

/// Weight of the payload of the `k`-th byte: `128^k`.
pub open spec fn pow128(k: nat) -> nat
    decreases k,
{
    if k == 0 {
        1
    } else {
        128 * pow128((k - 1) as nat)
    }
}

/// The bytes that encode `x`.
pub open spec fn var_bytes(x: nat) -> Seq<u8>
    decreases x,
{
    if x < 128 {
        seq![x as u8]
    } else {
        seq![(x % 128 + 128) as u8] + var_bytes(x / 128)
    }
}

/// Sum of the payloads (low seven bits) of the first `k` bytes of `s`,
/// each weighted by its position.
pub open spec fn payload_sum(s: Seq<u8>, k: nat) -> nat
    decreases k,
{
    if k == 0 {
        0
    } else {
        payload_sum(s, (k - 1) as nat) + ((s[k - 1] % 128) as nat) * pow128((k - 1) as nat)
    }
}

/// The widths, in bits, that the codec reads.
pub open spec fn valid_width(bits: u32) -> bool {
    bits == 8 || bits == 16 || bits == 32 || bits == 64
}

/// Number of values of a width: `2^bits`.
pub open spec fn width_modulus(bits: u32) -> nat {
    if bits == 8 {
        0x100
    } else if bits == 16 {
        0x1_0000
    } else if bits == 32 {
        0x1_0000_0000
    } else {
        0x1_0000_0000_0000_0000
    }
}

/// The most bytes a value of the given width is read from: `ceil(bits / 7)`.
pub open spec fn max_var_len(bits: u32) -> nat {
    if bits == 8 {
        2
    } else if bits == 16 {
        3
    } else if bits == 32 {
        5
    } else {
        10
    }
}

/// Outcome of reading a variable-length integer from the front of a buffer.
pub enum VarRead {
    /// A value was read from the first `len` bytes.
    Value { value: nat, len: nat },
    /// The value needs more bytes than the width allows.
    TooLarge,
    /// The buffer ends before the value does.
    RunsOut,
}

/// Reads on from the `k`-th byte of `buf`, the bytes before it all carrying
/// the continuation bit.
pub open spec fn var_read_at(buf: Seq<u8>, bits: u32, k: nat) -> VarRead
    decreases buf.len() - k,
{
    if k >= buf.len() {
        VarRead::RunsOut
    } else if buf[k as int] < 128 {
        VarRead::Value { value: payload_sum(buf, k + 1) % width_modulus(bits), len: k + 1 }
    } else if k + 1 >= max_var_len(bits) {
        VarRead::TooLarge
    } else {
        var_read_at(buf, bits, k + 1)
    }
}

/// What reading a value of the given width from the front of `buf` gives.
pub open spec fn var_read(buf: Seq<u8>, bits: u32) -> VarRead {
    var_read_at(buf, bits, 0)
}

/// Error of the variable-length integer codec.
#[derive(Debug, Clone, Copy, PartialEq, Eq, Structural)]
pub enum VarIntError {
    /// The value needs more bytes than its width allows.
    TooLarge,
}

/// A variable-length integer.
#[derive(Debug, Clone, Copy, PartialEq, Eq, PartialOrd, Ord, Hash)]
pub struct Variable<T>(pub T);

proof fn lemma_pow128_values()
    ensures
        pow128(1) == 0x80,
        pow128(2) == 0x4000,
        pow128(3) == 0x20_0000,
        pow128(5) == 0x8_0000_0000,
        pow128(9) == 0x8000_0000_0000_0000,
        pow128(10) == 0x40_0000_0000_0000_0000,
{
    reveal_with_fuel(pow128, 11);
}

proof fn lemma_pow128_positive(i: nat)
    ensures
        pow128(i) >= 1,
    decreases i,
{
    if i > 0 {
        lemma_pow128_positive((i - 1) as nat);
    }
}

proof fn lemma_pow128_monotonic(i: nat, j: nat)
    requires
        i <= j,
    ensures
        pow128(i) <= pow128(j),
        pow128(i) >= 1,
    decreases j,
{
    lemma_pow128_positive(i);
    if j > i {
        lemma_pow128_monotonic(i, (j - 1) as nat);
        lemma_pow128_positive((j - 1) as nat);
    }
}

/// The payload sum of a prefix does not look past the prefix.
proof fn lemma_payload_sum_prefix(s: Seq<u8>, t: Seq<u8>, k: nat)
    requires
        k <= s.len(),
    ensures
        payload_sum(s + t, k) == payload_sum(s, k),
    decreases k,
{
    if k > 0 {
        lemma_payload_sum_prefix(s, t, (k - 1) as nat);
        assert((s + t)[k - 1] == s[k - 1]);
    }
}

proof fn lemma_payload_sum_bound(s: Seq<u8>, k: nat)
    ensures
        payload_sum(s, k) < pow128(k),
    decreases k,
{
    if k > 0 {
        let k1 = (k - 1) as nat;
        lemma_payload_sum_bound(s, k1);
        let p = (s[k - 1] % 128) as nat;
        let w = pow128(k1);
        assert(payload_sum(s, k1) + p * w < 128 * w) by (nonlinear_arith)
            requires
                payload_sum(s, k1) < w,
                p < 128,
        ;
    }
}

/// Prepending a byte shifts the payload sum by seven bits.
proof fn lemma_payload_sum_cons(b: u8, t: Seq<u8>, k: nat)
    requires
        k <= t.len(),
    ensures
        payload_sum(seq![b] + t, k + 1) == (b % 128) as nat + 128 * payload_sum(t, k),
    decreases k,
{
    let s = seq![b] + t;
    if k == 0 {
        assert(s[0] == b);
        assert(pow128(0) == 1);
        assert(payload_sum(s, 1) == payload_sum(s, 0) + ((s[0] % 128) as nat) * pow128(0));
        assert(payload_sum(s, 0) == 0 && payload_sum(t, 0) == 0);
    } else {
        let k1 = (k - 1) as nat;
        lemma_payload_sum_cons(b, t, k1);
        assert(payload_sum(s, k) == (b % 128) as nat + 128 * payload_sum(t, k1));
        assert(s[k as int] == t[k1 as int]);
        let p = (t[k1 as int] % 128) as nat;
        let w = pow128(k1);
        assert(pow128(k) == 128 * w);
        assert(payload_sum(s, k + 1) == payload_sum(s, k) + p * pow128(k));
        assert(payload_sum(t, k) == payload_sum(t, k1) + p * w);
        assert(128 * payload_sum(t, k1) + p * (128 * w) == 128 * (payload_sum(t, k1) + p * w))
            by (nonlinear_arith);
    }
}

/// Shape and value of the encoding of `x`.
pub proof fn lemma_var_bytes(x: nat)
    ensures
        var_bytes(x).len() >= 1,
        forall|j: int| 0 <= j < var_bytes(x).len() - 1 ==> var_bytes(x)[j] >= 128,
        var_bytes(x)[var_bytes(x).len() - 1] < 128,
        payload_sum(var_bytes(x), var_bytes(x).len()) == x,
        x < pow128(var_bytes(x).len()),
        var_bytes(x).len() > 1 ==> x >= pow128((var_bytes(x).len() - 1) as nat),
    decreases x,
{
    if x < 128 {
        assert(payload_sum(var_bytes(x), 1) == x) by {
            assert(var_bytes(x)[0] == x as u8);
            assert(pow128(0) == 1);
            assert(payload_sum(var_bytes(x), 1) == payload_sum(var_bytes(x), 0) + ((var_bytes(
                x,
            )[0] % 128) as nat) * pow128(0));
            assert(payload_sum(var_bytes(x), 0) == 0);
            assert((x as u8) % 128 == x);
        }
        assert(pow128(1) == 128) by {
            lemma_pow128_values();
        }
    } else {
        let b = (x % 128 + 128) as u8;
        let t = var_bytes(x / 128);
        lemma_var_bytes(x / 128);
        let n = t.len();
        assert(var_bytes(x) == seq![b] + t);
        assert forall|j: int| 0 <= j < var_bytes(x).len() - 1 implies var_bytes(x)[j] >= 128 by {
            if j > 0 {
                assert(var_bytes(x)[j] == t[j - 1]);
            }
        }
        assert(var_bytes(x)[var_bytes(x).len() - 1] == t[n - 1]);
        lemma_payload_sum_cons(b, t, n);
        assert(b % 128 == x % 128);
        assert(x % 128 + 128 * (x / 128) == x);
        let q = x / 128;
        assert(x < 128 * pow128(n)) by (nonlinear_arith)
            requires
                x == x % 128 + 128 * q,
                x % 128 < 128,
                q < pow128(n),
        ;
        if n > 1 {
            let w = pow128((n - 1) as nat);
            assert(x >= 128 * w) by (nonlinear_arith)
                requires
                    x == x % 128 + 128 * q,
                    x % 128 >= 0,
                    q >= w,
            ;
        } else {
            assert(pow128(1) == 128) by {
                lemma_pow128_values();
            }
        }
    }
}

/// A value that fits its width is encoded in at most `max_var_len(bits)` bytes.
pub proof fn lemma_var_bytes_len(x: nat, bits: u32)
    requires
        valid_width(bits),
        x < width_modulus(bits),
    ensures
        var_bytes(x).len() <= max_var_len(bits),
{
    lemma_var_bytes(x);
    let n = var_bytes(x).len();
    if n > max_var_len(bits) {
        lemma_pow128_monotonic(max_var_len(bits), (n - 1) as nat);
        lemma_pow128_values();
        assert(pow128(max_var_len(bits)) >= width_modulus(bits));
        assert(false);
    }
}

/// Reading gives back what was written, whatever follows the encoding.
pub proof fn lemma_var_roundtrip(x: nat, bits: u32, rest: Seq<u8>)
    requires
        valid_width(bits),
        x < width_modulus(bits),
    ensures
        var_read(var_bytes(x) + rest, bits) == (VarRead::Value { value: x, len: var_bytes(x).len() }),
{
    lemma_var_bytes(x);
    lemma_var_bytes_len(x, bits);
    let bs = var_bytes(x);
    let s = bs + rest;
    let n = bs.len();
    lemma_payload_sum_prefix(bs, rest, n);
    lemma_var_read_tail(s, bits, x, n, (n - 1) as nat);
}

proof fn lemma_var_read_tail(s: Seq<u8>, bits: u32, x: nat, n: nat, k: nat)
    requires
        valid_width(bits),
        x < width_modulus(bits),
        1 <= n <= s.len(),
        n <= max_var_len(bits),
        k < n,
        forall|j: int| 0 <= j < n - 1 ==> s[j] >= 128,
        s[n - 1] < 128,
        payload_sum(s, n) == x,
    ensures
        var_read_at(s, bits, (n - 1 - k) as nat) == (VarRead::Value { value: x, len: n }),
    decreases k,
{
    if k > 0 {
        lemma_var_read_tail(s, bits, x, n, (k - 1) as nat);
    }
}

/// Reading from the `k`-th byte when reading from the front got there.
proof fn lemma_var_read_step(buf: Seq<u8>, bits: u32, k: nat)
    requires
        k < buf.len(),
        buf[k as int] >= 128,
        k + 1 < max_var_len(bits),
    ensures
        var_read_at(buf, bits, k) == var_read_at(buf, bits, k + 1),
{
}

/// Appends the encoding of `x` to `buf`.
pub(crate) fn write_var(buf: &mut Vec<u8>, x: u64)
    ensures
        final(buf)@ == old(buf)@ + var_bytes(x as nat),
{
    let ghost start = buf@;
    let mut i = x;
    while i >= 128
        invariant
            buf@ + var_bytes(i as nat) == start + var_bytes(x as nat),
        decreases i,
    {
        let b = (i % 128 + 128) as u8;
        let ghost before = buf@;
        assert(var_bytes(i as nat) == seq![b] + var_bytes((i / 128) as nat));
        buf.push(b);
        assert(buf@ + var_bytes((i / 128) as nat) == before + var_bytes(i as nat));
        i = i / 128;
    }
    let ghost before = buf@;
    buf.push(i as u8);
    assert(buf@ == before + var_bytes(i as nat));
}

/// Whether `buf` ends before a value of the given width read from its front
/// does.
pub(crate) fn var_runs_out(buf: &[u8], bits: u32) -> (r: bool)
    requires
        valid_width(bits),
    ensures
        r == (var_read(buf@, bits) is RunsOut),
{
    let max: usize = if bits == 8 {
        2
    } else if bits == 16 {
        3
    } else if bits == 32 {
        5
    } else {
        10
    };
    let mut k: usize = 0;
    loop
        invariant
            valid_width(bits),
            max == max_var_len(bits),
            k < max,
            var_read(buf@, bits) == var_read_at(buf@, bits, k as nat),
        decreases max - k,
    {
        if k >= buf.len() {
            return true;
        }
        if buf[k] < 128 {
            return false;
        }
        if k + 1 >= max {
            return false;
        }
        proof {
            lemma_var_read_step(buf@, bits, k as nat);
        }
        k = k + 1;
    }
}

/// Reads a value of the given width from the front of `buf`.
pub(crate) fn read_var(buf: &[u8], bits: u32) -> (r: Result<(u64, usize), VarIntError>)
    requires
        valid_width(bits),
        !(var_read(buf@, bits) is RunsOut),
    ensures
        match var_read(buf@, bits) {
            VarRead::Value { value, len } => r == Ok::<(u64, usize), VarIntError>(
                (value as u64, len as usize),
            ),
            VarRead::TooLarge => r == Err::<(u64, usize), VarIntError>(VarIntError::TooLarge),
            VarRead::RunsOut => false,
        },
        r matches Ok((v, _)) ==> (v as nat) < width_modulus(bits),
        var_read(buf@, bits) matches VarRead::Value { value, len } ==> value < width_modulus(
            bits,
        ) && 1 <= len <= max_var_len(bits) && len <= buf@.len(),
{
    let max: usize = if bits == 8 {
        2
    } else if bits == 16 {
        3
    } else if bits == 32 {
        5
    } else {
        10
    };
    let modulus: u128 = if bits == 8 {
        0x100
    } else if bits == 16 {
        0x1_0000
    } else if bits == 32 {
        0x1_0000_0000
    } else {
        0x1_0000_0000_0000_0000
    };
    let mut acc: u128 = 0;
    let mut weight: u128 = 1;
    let mut k: usize = 0;
    proof {
        lemma_pow128_values();
    }
    loop
        invariant
            valid_width(bits),
            max == max_var_len(bits),
            modulus == width_modulus(bits),
            k < max,
            var_read(buf@, bits) == var_read_at(buf@, bits, k as nat),
            !(var_read_at(buf@, bits, k as nat) is RunsOut),
            acc == payload_sum(buf@, k as nat),
            weight == pow128(k as nat),
            pow128(9) == 0x8000_0000_0000_0000,
        decreases max - k,
    {
        let b = buf[k];
        proof {
            lemma_pow128_monotonic(k as nat, 9);
            lemma_payload_sum_bound(buf@, k as nat);
            assert((b % 128) as u128 * weight <= 127 * 0x8000_0000_0000_0000u128) by (nonlinear_arith)
                requires
                    b % 128 <= 127,
                    weight <= 0x8000_0000_0000_0000u128,
            ;
        }
        acc = acc + (b % 128) as u128 * weight;
        if b < 128 {
            let value = (acc % modulus) as u64;
            return Ok((value, k + 1));
        }
        if k + 1 >= max {
            return Err(VarIntError::TooLarge);
        }
        proof {
            lemma_var_read_step(buf@, bits, k as nat);
        }
        weight = weight * 128;
        k = k + 1;
    }
}

} // verus!
