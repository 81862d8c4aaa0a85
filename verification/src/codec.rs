//! The `Packed` trait: a fixed bit width per type, with `pack` and `unpack`
//! operations at arbitrary bit offsets, and its instances for booleans and
//! for the unsigned and signed integers.
//!
//! The contracts are stated over [`crate::bits::read_bits`]: `pack` makes the
//! packed field read back as the value's bit pattern and leaves every bit
//! outside the field as it was; `unpack` returns the value whose bit pattern
//! the field holds.

use vstd::prelude::*;

verus! {

use vstd::arithmetic::power2::pow2;
use vstd::arithmetic::power2::lemma_pow2_pos;
use vstd::arithmetic::power2::lemma_pow2_unfold;
use vstd::arithmetic::power2::lemma_pow2_adds;
use vstd::arithmetic::power2::lemma2_to64;
use vstd::arithmetic::power2::lemma2_to64_rest;
use vstd::arithmetic::div_mod::lemma_fundamental_div_mod;
use vstd::arithmetic::mul::lemma_mul_inequality;
use vstd::layout::unsigned_int_max_values;
use vstd::layout::signed_int_min_max_values;
use crate::bits::bit_at;
use crate::bits::read_bits;
use crate::bits::read_field;
use crate::bits::write_field;
use crate::bits::pow2_u64;
use crate::bits::lemma_read_bits_concat;
use crate::bits::lemma_read_bits_congruence;

/// The two's-complement bit pattern of `x` at width `n`: non-negative values
/// keep their value, negative ones are shifted up by `pow2(n)`.
pub open spec fn to_unsigned(x: int, n: nat) -> nat
    recommends
        -pow2((n - 1) as nat) <= x < pow2((n - 1) as nat),
{
    if x >= 0 {
        x as nat
    } else {
        (x + pow2(n)) as nat
    }
}

/// A type that can be packed into a byte buffer at any bit offset, occupying
/// exactly `spec_size()` bits, most-significant bit first.
///
/// Multi-bit values are stored most-significant-bit first, both within a
/// byte and across the bytes they span; bit 0 of a byte is its
/// most-significant bit.  Signed integers use their two's-complement bit
/// pattern.  Every operation requires `offset + spec_size()` to fit in the
/// buffer; the requirement is proved by verified callers rather than
/// checked at runtime.
pub trait Packed: Sized {
    /// The number of bits a packed value of this type occupies.
    spec fn spec_size() -> nat;

    /// The value's bit pattern: the unsigned number, below
    /// `pow2(Self::spec_size())`, whose most-significant-first binary digits
    /// are the packed form of the value.
    spec fn bits(self) -> nat;

    /// A bit pattern fits in the type's width.
    proof fn lemma_bits_bound(self)
        ensures
            self.bits() < pow2(Self::spec_size()),
    ;

    /// Two values with the same bit pattern are the same value.
    proof fn lemma_bits_injective(self, other: Self)
        requires
            self.bits() == other.bits(),
        ensures
            self == other,
    ;

    /// The bit width, as a runtime value.
    fn size() -> (r: usize)
        requires
            Self::spec_size() <= usize::MAX,
        ensures
            r as nat == Self::spec_size(),
    ;

    /// Reads back the value whose `spec_size()`-bit pattern starts at bit
    /// `offset` of `bytes`.
    fn unpack(bytes: &[u8], offset: usize) -> (r: Self)
        requires
            offset + Self::spec_size() <= bytes@.len() * 8,
            offset + Self::spec_size() <= usize::MAX,
        ensures
            r.bits() == read_bits(bytes@, offset as int, Self::spec_size()),
    ;

    /// Writes the value's `spec_size()`-bit pattern at bit `offset` of
    /// `bytes`, leaving every bit outside that field as it was.
    fn pack(self, bytes: &mut Vec<u8>, offset: usize)
        requires
            offset + Self::spec_size() <= old(bytes)@.len() * 8,
            offset + Self::spec_size() <= usize::MAX,
        ensures
            final(bytes)@.len() == old(bytes)@.len(),
            read_bits(final(bytes)@, offset as int, Self::spec_size()) == self.bits(),
            forall|j: int|
                0 <= j < final(bytes)@.len() * 8 && !(offset <= j < offset + Self::spec_size())
                    ==> bit_at(final(bytes)@, j) == bit_at(old(bytes)@, j),
    ;

    /// The bit width, read off an instance rather than the type.
    fn size_of_val(&self) -> (r: usize)
        requires
            Self::spec_size() <= usize::MAX,
        ensures
            r as nat == Self::spec_size(),
    {
        Self::size()
    }
}

impl Packed for bool {
    open spec fn spec_size() -> nat {
        1
    }

    open spec fn bits(self) -> nat {
        if self {
            1
        } else {
            0
        }
    }

    proof fn lemma_bits_bound(self) {
        lemma2_to64();
    }

    proof fn lemma_bits_injective(self, other: bool) {
    }

    fn size() -> usize {
        1
    }

    fn unpack(bytes: &[u8], offset: usize) -> bool {
        let v = read_field(bytes, offset, 1);
        proof {
            lemma2_to64();
        }
        v == 1
    }

    fn pack(self, bytes: &mut Vec<u8>, offset: usize) {
        proof {
            lemma2_to64();
        }
        write_field(
            bytes,
            offset,
            1,
            if self {
                1
            } else {
                0
            },
        );
    }
}

impl Packed for () {
    open spec fn spec_size() -> nat {
        0
    }

    open spec fn bits(self) -> nat {
        0
    }

    proof fn lemma_bits_bound(self) {
        lemma_pow2_pos(0);
    }

    proof fn lemma_bits_injective(self, other: ()) {
    }

    fn size() -> usize {
        0
    }

    fn unpack(bytes: &[u8], offset: usize) -> () {
    }

    fn pack(self, bytes: &mut Vec<u8>, offset: usize) {
    }
}

impl Packed for u8 {
    open spec fn spec_size() -> nat {
        8
    }

    open spec fn bits(self) -> nat {
        self as nat
    }

    proof fn lemma_bits_bound(self) {
        lemma2_to64();
    }

    proof fn lemma_bits_injective(self, other: u8) {
    }

    fn size() -> usize {
        8
    }

    fn unpack(bytes: &[u8], offset: usize) -> u8 {
        let v = read_field(bytes, offset, 8);
        proof {
            lemma2_to64();
        }
        v as u8
    }

    fn pack(self, bytes: &mut Vec<u8>, offset: usize) {
        proof {
            lemma2_to64();
        }
        write_field(bytes, offset, 8, self as u64);
    }
}

impl Packed for u16 {
    open spec fn spec_size() -> nat {
        16
    }

    open spec fn bits(self) -> nat {
        self as nat
    }

    proof fn lemma_bits_bound(self) {
        lemma2_to64();
    }

    proof fn lemma_bits_injective(self, other: u16) {
    }

    fn size() -> usize {
        16
    }

    fn unpack(bytes: &[u8], offset: usize) -> u16 {
        let v = read_field(bytes, offset, 16);
        proof {
            lemma2_to64();
        }
        v as u16
    }

    fn pack(self, bytes: &mut Vec<u8>, offset: usize) {
        proof {
            lemma2_to64();
        }
        write_field(bytes, offset, 16, self as u64);
    }
}

impl Packed for u32 {
    open spec fn spec_size() -> nat {
        32
    }

    open spec fn bits(self) -> nat {
        self as nat
    }

    proof fn lemma_bits_bound(self) {
        lemma2_to64();
    }

    proof fn lemma_bits_injective(self, other: u32) {
    }

    fn size() -> usize {
        32
    }

    fn unpack(bytes: &[u8], offset: usize) -> u32 {
        let v = read_field(bytes, offset, 32);
        proof {
            lemma2_to64();
        }
        v as u32
    }

    fn pack(self, bytes: &mut Vec<u8>, offset: usize) {
        proof {
            lemma2_to64();
        }
        write_field(bytes, offset, 32, self as u64);
    }
}

impl Packed for u64 {
    open spec fn spec_size() -> nat {
        64
    }

    open spec fn bits(self) -> nat {
        self as nat
    }

    proof fn lemma_bits_bound(self) {
        lemma2_to64();
    }

    proof fn lemma_bits_injective(self, other: u64) {
    }

    fn size() -> usize {
        64
    }

    fn unpack(bytes: &[u8], offset: usize) -> u64 {
        let v = read_field(bytes, offset, 64);
        proof {
            lemma2_to64();
        }
        v
    }

    fn pack(self, bytes: &mut Vec<u8>, offset: usize) {
        proof {
            lemma2_to64();
        }
        write_field(bytes, offset, 64, self);
    }
}

impl Packed for u128 {
    open spec fn spec_size() -> nat {
        128
    }

    open spec fn bits(self) -> nat {
        self as nat
    }

    proof fn lemma_bits_bound(self) {
        unsigned_int_max_values();
    }

    proof fn lemma_bits_injective(self, other: u128) {
    }

    fn size() -> usize {
        128
    }

    fn unpack(bytes: &[u8], offset: usize) -> u128 {
        let hi = read_field(bytes, offset, 64);
        let lo = read_field(bytes, offset + 64, 64);
        proof {
            lemma2_to64();
            lemma_mul_inequality(hi as int, 0xffff_ffff_ffff_ffff, 0x1_0000_0000_0000_0000);
            lemma_read_bits_concat(bytes@, offset as int, 64, 64);
            lemma_pow2_adds(64, 64);
        }
        (hi as u128) * 0x1_0000_0000_0000_0000u128 + (lo as u128)
    }

    fn pack(self, bytes: &mut Vec<u8>, offset: usize) {
        proof {
            lemma2_to64();
            lemma_fundamental_div_mod(self as int, 0x1_0000_0000_0000_0000);
            unsigned_int_max_values();
            lemma_pow2_adds(64, 64);
        }
        let hi = (self / 0x1_0000_0000_0000_0000u128) as u64;
        let lo = (self % 0x1_0000_0000_0000_0000u128) as u64;
        write_field(bytes, offset, 64, hi);
        let ghost mid = bytes@;
        write_field(bytes, offset + 64, 64, lo);
        proof {
            lemma_read_bits_congruence(bytes@, mid, offset as int, 64);
            lemma_read_bits_concat(bytes@, offset as int, 64, 64);
        }
    }
}

impl Packed for usize {
    open spec fn spec_size() -> nat {
        usize::BITS as nat
    }

    open spec fn bits(self) -> nat {
        self as nat
    }

    proof fn lemma_bits_bound(self) {
        unsigned_int_max_values();
    }

    proof fn lemma_bits_injective(self, other: usize) {
    }

    fn size() -> usize {
        usize::BITS as usize
    }

    fn unpack(bytes: &[u8], offset: usize) -> usize {
        proof {
            unsigned_int_max_values();
        }
        let v = read_field(bytes, offset, usize::BITS as usize);
        v as usize
    }

    fn pack(self, bytes: &mut Vec<u8>, offset: usize) {
        proof {
            unsigned_int_max_values();
        }
        write_field(bytes, offset, usize::BITS as usize, self as u64);
    }
}

/// Converts a signed value to its `n`-bit two's-complement pattern.
fn signed_to_field(v: i64, n: usize) -> (r: u64)
    requires
        1 <= n <= 64,
        -pow2((n - 1) as nat) <= v < pow2((n - 1) as nat),
    ensures
        r as nat == to_unsigned(v as int, n as nat),
        (r as nat) < pow2(n as nat),
{
    proof {
        lemma_pow2_unfold(n as nat);
        lemma_pow2_pos((n - 1) as nat);
        lemma2_to64();
        lemma2_to64_rest();
        if n < 64 {
            vstd::arithmetic::power2::lemma_pow2_strictly_increases(n as nat, 64);
        }
        if n - 1 < 63 {
            vstd::arithmetic::power2::lemma_pow2_strictly_increases((n - 1) as nat, 63);
        }
    }
    let half = pow2_u64(n - 1);
    if v >= 0 {
        v as u64
    } else {
        let m = (-(v + 1)) as u64;
        (half - 1 - m) + half
    }
}

/// Converts an `n`-bit two's-complement pattern back to the signed value.
fn field_to_signed(v: u64, n: usize) -> (r: i64)
    requires
        1 <= n <= 64,
        (v as nat) < pow2(n as nat),
    ensures
        to_unsigned(r as int, n as nat) == v as nat,
        -pow2((n - 1) as nat) <= r < pow2((n - 1) as nat),
{
    proof {
        lemma_pow2_unfold(n as nat);
        lemma_pow2_pos((n - 1) as nat);
        lemma2_to64();
        lemma2_to64_rest();
        if n < 64 {
            vstd::arithmetic::power2::lemma_pow2_strictly_increases(n as nat, 64);
        }
        if n - 1 < 63 {
            vstd::arithmetic::power2::lemma_pow2_strictly_increases((n - 1) as nat, 63);
        }
    }
    let half = pow2_u64(n - 1);
    if v < half {
        v as i64
    } else {
        let m = half - 1 - (v - half);
        -(m as i64) - 1
    }
}

impl Packed for i8 {
    open spec fn spec_size() -> nat {
        8
    }

    open spec fn bits(self) -> nat {
        to_unsigned(self as int, 8)
    }

    proof fn lemma_bits_bound(self) {
        lemma2_to64();
    }

    proof fn lemma_bits_injective(self, other: i8) {
        lemma2_to64();
    }

    fn size() -> usize {
        8
    }

    fn unpack(bytes: &[u8], offset: usize) -> i8 {
        let v = read_field(bytes, offset, 8);
        proof {
            lemma2_to64();
        }
        field_to_signed(v, 8) as i8
    }

    fn pack(self, bytes: &mut Vec<u8>, offset: usize) {
        proof {
            lemma2_to64();
        }
        write_field(bytes, offset, 8, signed_to_field(self as i64, 8));
    }
}

impl Packed for i16 {
    open spec fn spec_size() -> nat {
        16
    }

    open spec fn bits(self) -> nat {
        to_unsigned(self as int, 16)
    }

    proof fn lemma_bits_bound(self) {
        lemma2_to64();
    }

    proof fn lemma_bits_injective(self, other: i16) {
        lemma2_to64();
    }

    fn size() -> usize {
        16
    }

    fn unpack(bytes: &[u8], offset: usize) -> i16 {
        let v = read_field(bytes, offset, 16);
        proof {
            lemma2_to64();
        }
        field_to_signed(v, 16) as i16
    }

    fn pack(self, bytes: &mut Vec<u8>, offset: usize) {
        proof {
            lemma2_to64();
        }
        write_field(bytes, offset, 16, signed_to_field(self as i64, 16));
    }
}

impl Packed for i32 {
    open spec fn spec_size() -> nat {
        32
    }

    open spec fn bits(self) -> nat {
        to_unsigned(self as int, 32)
    }

    proof fn lemma_bits_bound(self) {
        lemma2_to64();
    }

    proof fn lemma_bits_injective(self, other: i32) {
        lemma2_to64();
    }

    fn size() -> usize {
        32
    }

    fn unpack(bytes: &[u8], offset: usize) -> i32 {
        let v = read_field(bytes, offset, 32);
        proof {
            lemma2_to64();
        }
        field_to_signed(v, 32) as i32
    }

    fn pack(self, bytes: &mut Vec<u8>, offset: usize) {
        proof {
            lemma2_to64();
        }
        write_field(bytes, offset, 32, signed_to_field(self as i64, 32));
    }
}

impl Packed for i64 {
    open spec fn spec_size() -> nat {
        64
    }

    open spec fn bits(self) -> nat {
        to_unsigned(self as int, 64)
    }

    proof fn lemma_bits_bound(self) {
        lemma2_to64();
        lemma2_to64_rest();
    }

    proof fn lemma_bits_injective(self, other: i64) {
        lemma2_to64();
        lemma2_to64_rest();
    }

    fn size() -> usize {
        64
    }

    fn unpack(bytes: &[u8], offset: usize) -> i64 {
        let v = read_field(bytes, offset, 64);
        proof {
            lemma2_to64();
            lemma2_to64_rest();
        }
        field_to_signed(v, 64)
    }

    fn pack(self, bytes: &mut Vec<u8>, offset: usize) {
        proof {
            lemma2_to64();
            lemma2_to64_rest();
        }
        write_field(bytes, offset, 64, signed_to_field(self, 64));
    }
}

impl Packed for i128 {
    open spec fn spec_size() -> nat {
        128
    }

    open spec fn bits(self) -> nat {
        to_unsigned(self as int, 128)
    }

    proof fn lemma_bits_bound(self) {
        lemma_i128_range();
    }

    proof fn lemma_bits_injective(self, other: i128) {
        lemma_i128_range();
    }

    fn size() -> usize {
        128
    }

    fn unpack(bytes: &[u8], offset: usize) -> i128 {
        let u = u128::unpack(bytes, offset);
        proof {
            lemma_i128_range();
        }
        if u < 0x8000_0000_0000_0000_0000_0000_0000_0000u128 {
            u as i128
        } else {
            let t = (u - 0x8000_0000_0000_0000_0000_0000_0000_0000u128) as i128;
            (t - 0x4000_0000_0000_0000_0000_0000_0000_0000i128)
                - 0x4000_0000_0000_0000_0000_0000_0000_0000i128
        }
    }

    fn pack(self, bytes: &mut Vec<u8>, offset: usize) {
        proof {
            lemma_i128_range();
        }
        let u: u128 = if self >= 0 {
            self as u128
        } else {
            let t = self + 0x4000_0000_0000_0000_0000_0000_0000_0000i128;
            ((t + 0x4000_0000_0000_0000_0000_0000_0000_0000i128) as u128)
                + 0x8000_0000_0000_0000_0000_0000_0000_0000u128
        };
        u.pack(bytes, offset);
    }
}

/// The numeric values of the powers of two around the `i128` range.
proof fn lemma_i128_range()
    ensures
        pow2(126) == 0x4000_0000_0000_0000_0000_0000_0000_0000,
        pow2(127) == 0x8000_0000_0000_0000_0000_0000_0000_0000,
        pow2(128) == 0x1_0000_0000_0000_0000_0000_0000_0000_0000,
{
    lemma2_to64();
    lemma2_to64_rest();
    lemma_pow2_adds(64, 62);
    lemma_pow2_adds(64, 63);
    lemma_pow2_adds(64, 64);
}

impl Packed for isize {
    open spec fn spec_size() -> nat {
        usize::BITS as nat
    }

    open spec fn bits(self) -> nat {
        to_unsigned(self as int, usize::BITS as nat)
    }

    proof fn lemma_bits_bound(self) {
        signed_int_min_max_values();
        lemma_pow2_unfold(usize::BITS as nat);
    }

    proof fn lemma_bits_injective(self, other: isize) {
        signed_int_min_max_values();
        lemma_pow2_unfold(usize::BITS as nat);
    }

    fn size() -> usize {
        usize::BITS as usize
    }

    fn unpack(bytes: &[u8], offset: usize) -> isize {
        proof {
            signed_int_min_max_values();
        }
        let v = read_field(bytes, offset, usize::BITS as usize);
        field_to_signed(v, usize::BITS as usize) as isize
    }

    fn pack(self, bytes: &mut Vec<u8>, offset: usize) {
        proof {
            signed_int_min_max_values();
        }
        write_field(
            bytes,
            offset,
            usize::BITS as usize,
            signed_to_field(self as i64, usize::BITS as usize),
        );
    }
}

} // verus!
