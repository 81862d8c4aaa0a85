//! The bit-level model of a byte buffer, and the primitive operations on it.
//!
//! A buffer of `len` bytes is addressed by absolute bit position
//! `8 * byte_index + bit_in_byte`, where bit 0 of a byte is its
//! most-significant bit.  `read_bits` gives the unsigned value of a run of
//! bits, most-significant first; it is the single spec function that every
//! codec contract is stated over.

use vstd::prelude::*;

verus! {

use vstd::arithmetic::power2::pow2;
use vstd::arithmetic::power2::lemma_pow2_unfold;
use vstd::arithmetic::power2::lemma_pow2_pos;
use vstd::arithmetic::power2::lemma_pow2_adds;
use vstd::arithmetic::power2::lemma_pow2_strictly_increases;
use vstd::arithmetic::power2::lemma2_to64;
use vstd::arithmetic::div_mod::lemma_div_denominator;
use vstd::arithmetic::div_mod::lemma_fundamental_div_mod;

/// Bit `k` of a byte, where `k` counts from the least-significant bit.
pub open spec fn byte_bit(b: u8, k: u8) -> bool
    recommends
        k < 8,
{
    (b >> k) & 1 == 1
}

/// The bit of `bytes` at absolute bit position `i`, most-significant first
/// within each byte.
pub open spec fn bit_at(bytes: Seq<u8>, i: int) -> bool
    recommends
        0 <= i < bytes.len() * 8,
{
    byte_bit(bytes[i / 8], (7 - i % 8) as u8)
}

/// The unsigned value of the `n` bits of `bytes` starting at bit position
/// `o`, read most-significant bit first.
pub open spec fn read_bits(bytes: Seq<u8>, o: int, n: nat) -> nat
    recommends
        0 <= o,
        o + n <= bytes.len() * 8,
    decreases n,
{
    if n == 0 {
        0
    } else {
        read_bits(bytes, o, (n - 1) as nat) * 2 + (if bit_at(bytes, o + n - 1) {
            1nat
        } else {
            0nat
        })
    }
}

/// A run of bits is bounded by two to the power of its length.
pub proof fn lemma_read_bits_bound(bytes: Seq<u8>, o: int, n: nat)
    ensures
        read_bits(bytes, o, n) < pow2(n),
    decreases n,
{
    if n == 0 {
        lemma_pow2_pos(0);
    } else {
        lemma_read_bits_bound(bytes, o, (n - 1) as nat);
        lemma_pow2_unfold(n);
    }
}

/// `read_bits` depends only on the bits of the range it reads.
pub proof fn lemma_read_bits_congruence(b1: Seq<u8>, b2: Seq<u8>, o: int, n: nat)
    requires
        forall|j: int| o <= j < o + n ==> bit_at(b1, j) == bit_at(b2, j),
    ensures
        read_bits(b1, o, n) == read_bits(b2, o, n),
    decreases n,
{
    if n > 0 {
        lemma_read_bits_congruence(b1, b2, o, (n - 1) as nat);
    }
}

/// Reading `m + n` bits is reading `m` bits followed by `n` bits: the two
/// halves concatenate by shifting the first half up by `n` places.
pub proof fn lemma_read_bits_concat(bytes: Seq<u8>, o: int, m: nat, n: nat)
    ensures
        read_bits(bytes, o, m + n) == read_bits(bytes, o, m) * pow2(n) + read_bits(
            bytes,
            o + m,
            n,
        ),
    decreases n,
{
    if n == 0 {
        lemma2_to64();
    } else {
        lemma_read_bits_concat(bytes, o, m, (n - 1) as nat);
        lemma_pow2_unfold(n);
        let a = read_bits(bytes, o, m);
        let p = pow2((n - 1) as nat);
        assert(a * (p * 2) == (a * p) * 2) by (nonlinear_arith);
    }
}

/// Setting bit `k` of a byte leaves every other bit of that byte as it was.
proof fn lemma_byte_set_bit(x: u8, k: u8, k2: u8)
    by (bit_vector)
    requires
        k < 8,
        k2 < 8,
    ensures
        ((x | (1u8 << k)) >> k) & 1 == 1,
        ((x & !(1u8 << k)) >> k) & 1 == 0,
        k2 != k ==> ((x | (1u8 << k)) >> k2) & 1 == (x >> k2) & 1,
        k2 != k ==> ((x & !(1u8 << k)) >> k2) & 1 == (x >> k2) & 1,
{
}

/// Two to the power `e`, as a machine word.
pub fn pow2_u64(e: usize) -> (r: u64)
    requires
        e <= 63,
    ensures
        r as nat == pow2(e as nat),
{
    proof {
        lemma2_to64();
    }
    let mut r: u64 = 1;
    let mut t: usize = 0;
    while t < e
        invariant
            t <= e <= 63,
            r as nat == pow2(t as nat),
        decreases e - t,
    {
        proof {
            lemma_pow2_unfold((t + 1) as nat);
            lemma2_to64();
            if t + 1 < 64 {
                lemma_pow2_strictly_increases((t + 1) as nat, 64);
            }
        }
        r = r * 2;
        t = t + 1;
    }
    r
}

/// Reads the bit of `bytes` at absolute bit position `i`.
pub fn get_bit(bytes: &[u8], i: usize) -> (r: bool)
    requires
        i < bytes@.len() * 8,
    ensures
        r == bit_at(bytes@, i as int),
{
    let k: u8 = 7 - (i % 8) as u8;
    ((bytes[i / 8] >> k) & 1) == 1
}

/// Writes the bit of `bytes` at absolute bit position `i`, leaving every
/// other bit of the buffer as it was.
pub fn set_bit(bytes: &mut Vec<u8>, i: usize, b: bool)
    requires
        i < old(bytes)@.len() * 8,
    ensures
        final(bytes)@.len() == old(bytes)@.len(),
        bit_at(final(bytes)@, i as int) == b,
        forall|j: int|
            0 <= j < final(bytes)@.len() * 8 && j != i ==> bit_at(final(bytes)@, j) == bit_at(
                old(bytes)@,
                j,
            ),
{
    let idx = i / 8;
    let k: u8 = 7 - (i % 8) as u8;
    let x = bytes[idx];
    let y: u8 = if b {
        x | (1u8 << k)
    } else {
        x & !(1u8 << k)
    };
    bytes.set(idx, y);
    proof {
        lemma_byte_set_bit(x, k, k);
        assert forall|j: int|
            0 <= j < bytes@.len() * 8 && j != i implies bit_at(bytes@, j) == bit_at(
            old(bytes)@,
            j,
        ) by {
            if j / 8 == idx {
                lemma_byte_set_bit(x, k, (7 - j % 8) as u8);
            }
        }
    }
}

/// Reads the `n`-bit unsigned field of `bytes` that starts at bit `offset`,
/// most-significant bit first.
pub fn read_field(bytes: &[u8], offset: usize, n: usize) -> (r: u64)
    requires
        n <= 64,
        offset + n <= bytes@.len() * 8,
        offset + n <= usize::MAX,
    ensures
        r as nat == read_bits(bytes@, offset as int, n as nat),
        (r as nat) < pow2(n as nat),
{
    proof {
        lemma_read_bits_bound(bytes@, offset as int, n as nat);
        lemma2_to64();
    }
    let mut acc: u64 = 0;
    let mut j: usize = 0;
    while j < n
        invariant
            j <= n,
            n <= 64,
            offset + n <= bytes@.len() * 8,
            offset + n <= usize::MAX,
            acc as nat == read_bits(bytes@, offset as int, j as nat),
            (acc as nat) < pow2(j as nat),
        decreases n - j,
    {
        let bit = get_bit(bytes, offset + j);
        proof {
            lemma_pow2_unfold((j + 1) as nat);
            lemma2_to64();
            if j + 1 < 64 {
                lemma_pow2_strictly_increases((j + 1) as nat, 64);
            }
        }
        acc = acc * 2 + (if bit {
            1
        } else {
            0
        });
        j = j + 1;
    }
    acc
}

/// Writes `value` as an `n`-bit field of `bytes` starting at bit `offset`,
/// most-significant bit first, leaving every bit outside the field as it
/// was.
pub fn write_field(bytes: &mut Vec<u8>, offset: usize, n: usize, value: u64)
    requires
        n <= 64,
        offset + n <= old(bytes)@.len() * 8,
        offset + n <= usize::MAX,
        (value as nat) < pow2(n as nat),
    ensures
        final(bytes)@.len() == old(bytes)@.len(),
        read_bits(final(bytes)@, offset as int, n as nat) == value as nat,
        forall|j: int|
            0 <= j < final(bytes)@.len() * 8 && !(offset <= j < offset + n) ==> bit_at(
                final(bytes)@,
                j,
            ) == bit_at(old(bytes)@, j),
{
    proof {
        lemma2_to64();
    }
    if n == 0 {
        return ;
    }
    let mut p: u64 = pow2_u64(n - 1);
    let mut j: usize = 0;
    proof {
        vstd::arithmetic::div_mod::lemma_basic_div(value as int, pow2(n as nat) as int);
    }
    while j < n
        invariant
            j <= n,
            1 <= n <= 64,
            offset + n <= old(bytes)@.len() * 8,
            offset + n <= usize::MAX,
            bytes@.len() == old(bytes)@.len(),
            (value as nat) < pow2(n as nat),
            j < n ==> p as nat == pow2((n - 1 - j) as nat),
            read_bits(bytes@, offset as int, j as nat) == (value as nat) / pow2((n - j) as nat),
            forall|j2: int|
                0 <= j2 < bytes@.len() * 8 && !(offset <= j2 < offset + j) ==> bit_at(bytes@, j2)
                    == bit_at(old(bytes)@, j2),
        decreases n - j,
    {
        proof {
            lemma_pow2_pos((n - 1 - j) as nat);
        }
        let bit = (value / p) % 2 == 1;
        let ghost pre = bytes@;
        set_bit(bytes, offset + j, bit);
        proof {
            lemma_read_bits_congruence(bytes@, pre, offset as int, j as nat);
            let v = value as int;
            let q = pow2((n - 1 - j) as nat) as int;
            let d = v / q;
            lemma_pow2_adds((n - 1 - j) as nat, 1);
            lemma2_to64();
            lemma_div_denominator(v, q, 2);
            lemma_fundamental_div_mod(d, 2);
            assert(read_bits(bytes@, offset as int, (j + 1) as nat) == (value as nat) / pow2(
                (n - j - 1) as nat,
            ));
        }
        if j < n - 1 {
            proof {
                lemma_pow2_unfold((n - 1 - j) as nat);
            }
            p = p / 2;
        }
        j = j + 1;
    }
    proof {
        lemma2_to64();
        vstd::arithmetic::div_mod::lemma_div_basics(value as int);
    }
}

/// Bit `j` of a field (counting from its most significant bit) is digit
/// `n - 1 - j` of the field's value in binary.
pub proof fn lemma_read_bits_extract(bytes: Seq<u8>, o: int, n: nat, j: int)
    requires
        0 <= j < n,
    ensures
        bit_at(bytes, o + j) == ((read_bits(bytes, o, n) / pow2((n - 1 - j) as nat)) % 2 == 1),
{
    let lo = (n - 1 - j) as nat;
    lemma_read_bits_concat(bytes, o, (j + 1) as nat, lo);
    lemma_read_bits_bound(bytes, o + j + 1, lo);
    lemma_pow2_pos(lo);
    let hi = read_bits(bytes, o, (j + 1) as nat);
    let rest = read_bits(bytes, o + j + 1, lo);
    assert(hi * pow2(lo) == pow2(lo) * hi) by (nonlinear_arith);
    vstd::arithmetic::div_mod::lemma_div_multiples_vanish_fancy(
        hi as int,
        rest as int,
        pow2(lo) as int,
    );
    let b = read_bits(bytes, o, j as nat);
    let bit: nat = if bit_at(bytes, o + j) {
        1
    } else {
        0
    };
    assert(hi == b * 2 + bit);
    vstd::arithmetic::div_mod::lemma_mod_multiples_vanish(b as int, bit as int, 2);
}

/// Two bytes that agree on all eight bits are equal.
proof fn lemma_byte_from_bits(x: u8, y: u8)
    by (bit_vector)
    requires
        ((x >> 0u8) & 1 == 1) == ((y >> 0u8) & 1 == 1),
        ((x >> 1u8) & 1 == 1) == ((y >> 1u8) & 1 == 1),
        ((x >> 2u8) & 1 == 1) == ((y >> 2u8) & 1 == 1),
        ((x >> 3u8) & 1 == 1) == ((y >> 3u8) & 1 == 1),
        ((x >> 4u8) & 1 == 1) == ((y >> 4u8) & 1 == 1),
        ((x >> 5u8) & 1 == 1) == ((y >> 5u8) & 1 == 1),
        ((x >> 6u8) & 1 == 1) == ((y >> 6u8) & 1 == 1),
        ((x >> 7u8) & 1 == 1) == ((y >> 7u8) & 1 == 1),
    ensures
        x == y,
{
}

/// Two buffers of the same length that agree on every bit are equal.
pub proof fn lemma_bits_determine_bytes(b1: Seq<u8>, b2: Seq<u8>)
    requires
        b1.len() == b2.len(),
        forall|i: int| 0 <= i < b1.len() * 8 ==> bit_at(b1, i) == bit_at(b2, i),
    ensures
        b1 == b2,
{
    assert forall|k: int| 0 <= k < b1.len() implies b1[k] == b2[k] by {
        assert((8 * k + 0) / 8 == k && (8 * k + 0) % 8 == 0);
        assert(bit_at(b1, 8 * k + 0) == bit_at(b2, 8 * k + 0));
        assert((8 * k + 1) / 8 == k && (8 * k + 1) % 8 == 1);
        assert(bit_at(b1, 8 * k + 1) == bit_at(b2, 8 * k + 1));
        assert((8 * k + 2) / 8 == k && (8 * k + 2) % 8 == 2);
        assert(bit_at(b1, 8 * k + 2) == bit_at(b2, 8 * k + 2));
        assert((8 * k + 3) / 8 == k && (8 * k + 3) % 8 == 3);
        assert(bit_at(b1, 8 * k + 3) == bit_at(b2, 8 * k + 3));
        assert((8 * k + 4) / 8 == k && (8 * k + 4) % 8 == 4);
        assert(bit_at(b1, 8 * k + 4) == bit_at(b2, 8 * k + 4));
        assert((8 * k + 5) / 8 == k && (8 * k + 5) % 8 == 5);
        assert(bit_at(b1, 8 * k + 5) == bit_at(b2, 8 * k + 5));
        assert((8 * k + 6) / 8 == k && (8 * k + 6) % 8 == 6);
        assert(bit_at(b1, 8 * k + 6) == bit_at(b2, 8 * k + 6));
        assert((8 * k + 7) / 8 == k && (8 * k + 7) % 8 == 7);
        assert(bit_at(b1, 8 * k + 7) == bit_at(b2, 8 * k + 7));
        lemma_byte_from_bits(b1[k], b2[k]);
    }
    assert(b1 =~= b2);
}

/// A byte's value, summed from its eight bits.
proof fn lemma_byte_value(x: u8)
    by (bit_vector)
    ensures
        x as int == (if (x >> 7u8) & 1 == 1 {
            128int
        } else {
            0int
        }) + (if (x >> 6u8) & 1 == 1 {
            64int
        } else {
            0int
        }) + (if (x >> 5u8) & 1 == 1 {
            32int
        } else {
            0int
        }) + (if (x >> 4u8) & 1 == 1 {
            16int
        } else {
            0int
        }) + (if (x >> 3u8) & 1 == 1 {
            8int
        } else {
            0int
        }) + (if (x >> 2u8) & 1 == 1 {
            4int
        } else {
            0int
        }) + (if (x >> 1u8) & 1 == 1 {
            2int
        } else {
            0int
        }) + (if (x >> 0u8) & 1 == 1 {
            1int
        } else {
            0int
        }),
{
}

/// Reading the eight bits of byte `k`, byte-aligned, gives the byte.
pub proof fn lemma_read_byte(bytes: Seq<u8>, k: int)
    requires
        0 <= k < bytes.len(),
    ensures
        read_bits(bytes, 8 * k, 8) == bytes[k],
{
    let o = 8 * k;
    assert((o + 0) / 8 == k && (o + 0) % 8 == 0);
    assert((o + 1) / 8 == k && (o + 1) % 8 == 1);
    assert((o + 2) / 8 == k && (o + 2) % 8 == 2);
    assert((o + 3) / 8 == k && (o + 3) % 8 == 3);
    assert((o + 4) / 8 == k && (o + 4) % 8 == 4);
    assert((o + 5) / 8 == k && (o + 5) % 8 == 5);
    assert((o + 6) / 8 == k && (o + 6) % 8 == 6);
    assert((o + 7) / 8 == k && (o + 7) % 8 == 7);
    assert(read_bits(bytes, o, 0) == 0);
    assert(read_bits(bytes, o, 1) == (if bit_at(bytes, o) {
        1nat
    } else {
        0nat
    }));
    assert(read_bits(bytes, o, 2) == read_bits(bytes, o, 1) * 2 + (if bit_at(bytes, o + 1) {
        1nat
    } else {
        0nat
    }));
    assert(read_bits(bytes, o, 3) == read_bits(bytes, o, 2) * 2 + (if bit_at(bytes, o + 2) {
        1nat
    } else {
        0nat
    }));
    assert(read_bits(bytes, o, 4) == read_bits(bytes, o, 3) * 2 + (if bit_at(bytes, o + 3) {
        1nat
    } else {
        0nat
    }));
    assert(read_bits(bytes, o, 5) == read_bits(bytes, o, 4) * 2 + (if bit_at(bytes, o + 4) {
        1nat
    } else {
        0nat
    }));
    assert(read_bits(bytes, o, 6) == read_bits(bytes, o, 5) * 2 + (if bit_at(bytes, o + 5) {
        1nat
    } else {
        0nat
    }));
    assert(read_bits(bytes, o, 7) == read_bits(bytes, o, 6) * 2 + (if bit_at(bytes, o + 6) {
        1nat
    } else {
        0nat
    }));
    assert(read_bits(bytes, o, 8) == read_bits(bytes, o, 7) * 2 + (if bit_at(bytes, o + 7) {
        1nat
    } else {
        0nat
    }));
    lemma_byte_value(bytes[k]);
}

} // verus!
