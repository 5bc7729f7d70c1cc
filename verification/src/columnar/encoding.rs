//! Little-endian integers as they stand in a column file.

use vstd::prelude::*;

verus! {

/// The number that `bytes` spell, least significant byte first.
pub open spec fn le_value(bytes: Seq<u8>) -> nat
    decreases bytes.len(),
{
    if bytes.len() == 0 {
        0
    } else {
        bytes[0] as nat + 256 * le_value(bytes.drop_first())
    }
}

/// The `width` low bytes of `value`, least significant byte first.
pub open spec fn le_bytes(value: nat, width: nat) -> Seq<u8>
    decreases width,
{
    if width == 0 {
        Seq::empty()
    } else {
        seq![(value % 256) as u8] + le_bytes(value / 256, (width - 1) as nat)
    }
}

/// 256 to the power `width`.
pub open spec fn pow256(width: nat) -> nat
    decreases width,
{
    if width == 0 {
        1
    } else {
        256 * pow256((width - 1) as nat)
    }
}

/// The unsigned number that stands for `v` in two's complement modulo `modulus`.
pub open spec fn to_twos_complement(v: int, modulus: int) -> int {
    if v < 0 {
        v + modulus
    } else {
        v
    }
}

/// The signed number that `u` stands for in two's complement modulo `modulus`.
pub open spec fn from_twos_complement(u: int, modulus: int) -> int {
    if 2 * u >= modulus {
        u - modulus
    } else {
        u
    }
}

/// The values of `pow256` that the integer widths use.
pub proof fn lemma_pow256_values()
    ensures
        pow256(0) == 1,
        pow256(1) == 0x100,
        pow256(2) == 0x1_0000,
        pow256(4) == 0x1_0000_0000,
        pow256(8) == 0x1_0000_0000_0000_0000,
{
    reveal_with_fuel(pow256, 9);
}

/// `le_bytes` gives exactly `width` bytes.
pub proof fn lemma_le_bytes_len(value: nat, width: nat)
    ensures
        le_bytes(value, width).len() == width,
    decreases width,
{
    if width > 0 {
        lemma_le_bytes_len(value / 256, (width - 1) as nat);
    }
}

/// A byte string spells a number below `256^len`.
pub proof fn lemma_le_value_bound(bytes: Seq<u8>)
    ensures
        le_value(bytes) < pow256(bytes.len()),
    decreases bytes.len(),
{
    if bytes.len() > 0 {
        lemma_le_value_bound(bytes.drop_first());
    }
}

/// Reading back what was written gives the value, as far as the width holds it.
pub proof fn lemma_le_value_of_le_bytes(value: nat, width: nat)
    requires
        value < pow256(width),
    ensures
        le_value(le_bytes(value, width)) == value,
    decreases width,
{
    if width > 0 {
        let rest = le_bytes(value / 256, (width - 1) as nat);
        let all = le_bytes(value, width);
        assert(all.drop_first() =~= rest);
        lemma_le_value_of_le_bytes(value / 256, (width - 1) as nat);
    }
}

/// Writing back what was read gives the same bytes.
pub proof fn lemma_le_bytes_of_le_value(bytes: Seq<u8>)
    ensures
        le_bytes(le_value(bytes), bytes.len()) == bytes,
    decreases bytes.len(),
{
    if bytes.len() > 0 {
        let rest = bytes.drop_first();
        lemma_le_bytes_of_le_value(rest);
        let v = le_value(bytes);
        assert(v % 256 == bytes[0] as nat && v / 256 == le_value(rest)) by {
            vstd::arithmetic::div_mod::lemma_fundamental_div_mod_converse(
                v as int,
                256,
                le_value(rest) as int,
                bytes[0] as int,
            );
        }
        assert(le_bytes(v, bytes.len()) =~= bytes);
    } else {
        assert(le_bytes(0, 0) =~= bytes);
    }
}

/// Two's complement and back is the identity on the signed range.
pub proof fn lemma_twos_complement_round_trip(v: int, modulus: int)
    requires
        modulus > 0,
        modulus % 2 == 0,
        -(modulus / 2) <= v < modulus / 2,
    ensures
        0 <= to_twos_complement(v, modulus) < modulus,
        from_twos_complement(to_twos_complement(v, modulus), modulus) == v,
{
}

/// Reads the unsigned integer of `width` bytes that starts at `at`.
pub fn read_uint_le(bytes: &[u8], at: usize, width: usize) -> (r: u64)
    requires
        width <= 8,
        at + width <= bytes@.len(),
    ensures
        r == le_value(bytes@.subrange(at as int, at + width)),
        r < pow256(width as nat),
{
    let n: usize = bytes.len();
    let mut acc: u64 = 0;
    let mut k: usize = width;
    proof {
        lemma_pow256_values();
        assert(bytes@.subrange(at + width, at + width).len() == 0);
    }
    while k > 0
        invariant
            k <= width <= 8,
            n == bytes@.len(),
            at + width <= n,
            acc == le_value(bytes@.subrange(at + k, at + width)),
            acc < pow256((width - k) as nat),
        decreases k,
    {
        k -= 1;
        let b: u8 = bytes[at + k];
        proof {
            let tail = bytes@.subrange(at + k, at + width);
            assert(tail.drop_first() =~= bytes@.subrange(at + k + 1, at + width));
            assert(tail[0] == b);
            lemma_pow256_step_bound(acc as nat, b, (width - k - 1) as nat);
            lemma_pow256_monotone((width - k) as nat, 8);
            lemma_pow256_values();
        }
        acc = acc * 256 + b as u64;
    }
    acc
}

/// Appends the `width` low bytes of `value` to `out`, least significant first.
pub fn write_uint_le(out: &mut Vec<u8>, value: u64, width: usize)
    requires
        width <= 8,
    ensures
        final(out)@ == old(out)@ + le_bytes(value as nat, width as nat),
{
    let mut v: u64 = value;
    let mut k: usize = 0;
    while k < width
        invariant
            k <= width,
            old(out)@ + le_bytes(value as nat, width as nat) == out@ + le_bytes(
                v as nat,
                (width - k) as nat,
            ),
        decreases width - k,
    {
        let ghost before = out@;
        out.push((v % 256) as u8);
        proof {
            let rest = le_bytes((v / 256) as nat, (width - k - 1) as nat);
            assert(before + (seq![(v % 256) as u8] + rest) =~= before.push((v % 256) as u8)
                + rest);
        }
        v = v / 256;
        k += 1;
    }
    assert(out@ + le_bytes(v as nat, 0) =~= out@);
}

proof fn lemma_pow256_step_bound(acc: nat, b: u8, width: nat)
    requires
        acc < pow256(width),
    ensures
        b as nat + 256 * acc < pow256(width + 1),
{
}

proof fn lemma_pow256_monotone(a: nat, b: nat)
    requires
        a <= b,
    ensures
        pow256(a) <= pow256(b),
    decreases b,
{
    if a < b {
        lemma_pow256_monotone(a, (b - 1) as nat);
    }
}

/// Appends `bytes` to `out`.
pub fn append_bytes(out: &mut Vec<u8>, bytes: &[u8])
    ensures
        final(out)@ == old(out)@ + bytes@,
{
    out.extend_from_slice(bytes);
    assert(out@ =~= old(out)@ + bytes@);
}

/// The bytes of an unsigned integer of `width` bytes.
pub open spec fn uint_bytes(value: nat, width: nat) -> Seq<u8> {
    le_bytes(value, width)
}

/// The bytes of a signed integer of `width` bytes, in two's complement.
pub open spec fn int_bytes(value: int, width: nat) -> Seq<u8> {
    le_bytes(to_twos_complement(value, pow256(width) as int) as nat, width)
}

/// The signed integer that `bytes` spell in two's complement.
pub open spec fn int_value(bytes: Seq<u8>) -> int {
    from_twos_complement(le_value(bytes) as int, pow256(bytes.len()) as int)
}

/// The byte of a boolean.
pub open spec fn bool_bytes(value: bool) -> Seq<u8> {
    seq![if value {
        1u8
    } else {
        0u8
    }]
}

/// An unsigned integer is read back from its bytes.
pub proof fn lemma_uint_round_trip(value: nat, width: nat)
    requires
        value < pow256(width),
    ensures
        uint_bytes(value, width).len() == width,
        le_value(uint_bytes(value, width)) == value,
{
    lemma_le_bytes_len(value, width);
    lemma_le_value_of_le_bytes(value, width);
}

/// A signed integer is read back from its bytes.
pub proof fn lemma_int_round_trip(value: int, width: nat)
    requires
        width > 0,
        -(pow256(width) / 2) <= value < pow256(width) / 2,
    ensures
        int_bytes(value, width).len() == width,
        int_value(int_bytes(value, width)) == value,
{
    lemma_pow256_even(width);
    let modulus = pow256(width) as int;
    lemma_twos_complement_round_trip(value, modulus);
    let u = to_twos_complement(value, modulus) as nat;
    lemma_le_bytes_len(u, width);
    lemma_le_value_of_le_bytes(u, width);
}

/// A power of 256 above the zeroth is even.
pub proof fn lemma_pow256_even(width: nat)
    requires
        width > 0,
    ensures
        pow256(width) > 0,
        pow256(width) % 2 == 0,
    decreases width,
{
    if width > 1 {
        lemma_pow256_even((width - 1) as nat);
    } else {
        reveal_with_fuel(pow256, 2);
    }
}

/// The unsigned number that stands for `value` in two's complement of
/// `width` bytes.
pub fn encode_signed(value: i64, width: usize) -> (r: u64)
    requires
        width == 1 || width == 2 || width == 4 || width == 8,
        -(pow256(width as nat) / 2) <= value < pow256(width as nat) / 2,
    ensures
        r == to_twos_complement(value as int, pow256(width as nat) as int),
        r < pow256(width as nat),
{
    proof {
        lemma_pow256_values();
    }
    if value >= 0 {
        value as u64
    } else {
        let modulus: i128 = if width == 1 {
            0x100
        } else if width == 2 {
            0x1_0000
        } else if width == 4 {
            0x1_0000_0000
        } else {
            0x1_0000_0000_0000_0000
        };
        (value as i128 + modulus) as u64
    }
}

/// The signed number that `value` stands for in two's complement of `width`
/// bytes.
pub fn decode_signed(value: u64, width: usize) -> (r: i64)
    requires
        width == 1 || width == 2 || width == 4 || width == 8,
        value < pow256(width as nat),
    ensures
        r == from_twos_complement(value as int, pow256(width as nat) as int),
        -(pow256(width as nat) / 2) <= r < pow256(width as nat) / 2,
{
    proof {
        lemma_pow256_values();
    }
    let modulus: i128 = if width == 1 {
        0x100
    } else if width == 2 {
        0x1_0000
    } else if width == 4 {
        0x1_0000_0000
    } else {
        0x1_0000_0000_0000_0000
    };
    if 2 * (value as i128) >= modulus {
        (value as i128 - modulus) as i64
    } else {
        value as i64
    }
}

/// Bytes that are read as an unsigned integer and written again are the
/// same bytes.
pub proof fn lemma_uint_bytes_of_value(bytes: Seq<u8>)
    ensures
        uint_bytes(le_value(bytes), bytes.len()) == bytes,
{
    lemma_le_bytes_of_le_value(bytes);
}

/// Bytes that are read as a signed integer and written again are the same
/// bytes.
pub proof fn lemma_int_bytes_of_value(bytes: Seq<u8>)
    requires
        bytes.len() > 0,
    ensures
        int_bytes(int_value(bytes), bytes.len()) == bytes,
        -(pow256(bytes.len()) / 2) <= int_value(bytes) < pow256(bytes.len()) / 2,
{
    lemma_pow256_even(bytes.len());
    lemma_le_value_bound(bytes);
    lemma_le_bytes_of_le_value(bytes);
}

} // verus!
