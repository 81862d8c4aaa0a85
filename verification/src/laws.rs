//! Laws of the codec, stated and proved over the same spec functions that
//! the `pack` and `unpack` contracts use.

use vstd::prelude::*;

verus! {

use vstd::arithmetic::power2::pow2;
use vstd::arithmetic::power2::lemma_pow2_pos;
use vstd::arithmetic::power2::lemma_pow2_adds;
use vstd::arithmetic::power2::lemma2_to64;
use crate::bits::bit_at;
use crate::bits::read_bits;
use crate::bits::lemma_read_bits_bound;
use crate::bits::lemma_read_bits_concat;
use crate::bits::lemma_read_bits_congruence;
use crate::bits::lemma_read_bits_extract;
use crate::bits::lemma_bits_determine_bytes;
use crate::bits::lemma_read_byte;
use crate::codec::Packed;
use crate::codec::to_unsigned;

/// Round trip: what `pack` wrote, `unpack` reads back as the same value.
///
/// The first premise is `pack`'s postcondition for value `v`, the second is
/// `unpack`'s postcondition for result `r` on the packed buffer; together
/// they force `r == v`.
pub proof fn lemma_round_trip<T: Packed>(v: T, r: T, buf: Seq<u8>, o: int)
    requires
        read_bits(buf, o, T::spec_size()) == v.bits(),
        r.bits() == read_bits(buf, o, T::spec_size()),
    ensures
        r == v,
{
    r.lemma_bits_injective(v);
}

/// Width additivity for arrays: `N` elements of width `E` occupy `N * E`
/// bits.
pub proof fn lemma_array_width<T: Packed, const N: usize>()
    ensures
        <[T; N]>::spec_size() == N * T::spec_size(),
{
}

/// Width additivity for tuples: a tuple occupies the sum of its members'
/// widths.
pub proof fn lemma_tuple_width_additive<
    A: Packed,
    B: Packed,
    C: Packed,
    D: Packed,
    E: Packed,
    F: Packed,
    G: Packed,
    H: Packed,
    I: Packed,
    J: Packed,
    K: Packed,
    L: Packed,
>()
    ensures
        <(A, B)>::spec_size() == A::spec_size() + B::spec_size(),
        <(A, B, C)>::spec_size() == A::spec_size() + B::spec_size() + C::spec_size(),
        <(A, B, C, D, E, F, G, H, I, J, K, L)>::spec_size() == A::spec_size() + B::spec_size()
            + C::spec_size() + D::spec_size() + E::spec_size() + F::spec_size() + G::spec_size()
            + H::spec_size() + I::spec_size() + J::spec_size() + K::spec_size() + L::spec_size(),
{
}

/// Byte `i` of the big-endian representation of an `n`-bit value `v`.
pub open spec fn be_byte(v: nat, n: nat, i: int) -> u8
    recommends
        n % 8 == 0,
        0 <= i < n / 8,
        v < pow2(n),
{
    (((v / pow2((n - 8 * i - 8) as nat)) % 256) as u8)
}

/// Byte-aligned packing is plain big-endian byte placement: when a field of
/// a whole number of bytes starts at a byte-aligned offset, the bytes it
/// covers are exactly the value's big-endian bytes, starting at byte
/// `o / 8`.
pub proof fn lemma_byte_aligned_pack(buf: Seq<u8>, o: int, n: nat, v: nat)
    requires
        o % 8 == 0,
        n % 8 == 0,
        0 <= o,
        o + n <= buf.len() * 8,
        read_bits(buf, o, n) == v,
    ensures
        forall|i: int| 0 <= i < n / 8 ==> buf[o / 8 + i] == be_byte(v, n, i),
{
    assert forall|i: int| 0 <= i < n / 8 implies buf[o / 8 + i] == be_byte(v, n, i) by {
        let hi = (8 * i) as nat;
        let rest = (n - 8 * i - 8) as nat;
        lemma_read_bits_concat(buf, o, hi, (n - 8 * i) as nat);
        lemma_read_bits_concat(buf, o + 8 * i, 8, rest);
        let a = read_bits(buf, o, hi);
        let b = read_bits(buf, o + 8 * i, 8);
        let c = read_bits(buf, o + 8 * i + 8, rest);
        lemma_read_bits_bound(buf, o + 8 * i, 8);
        lemma_read_bits_bound(buf, o + 8 * i + 8, rest);
        lemma_pow2_pos(rest);
        lemma2_to64();
        lemma_pow2_adds(8, rest);
        assert(v == (a * pow2(8 + rest) + b * pow2(rest)) + c);
        assert(a * (pow2(8) * pow2(rest)) + b * pow2(rest) == pow2(rest) * (a * 256 + b))
            by (nonlinear_arith)
            requires
                pow2(8) == 256,
        ;
        vstd::arithmetic::div_mod::lemma_div_multiples_vanish_fancy(
            (a * 256 + b) as int,
            c as int,
            pow2(rest) as int,
        );
        assert(v / pow2(rest) == a * 256 + b);
        vstd::arithmetic::div_mod::lemma_mod_multiples_vanish(a as int, b as int, 256);
        assert((a * 256 + b) % 256 == b % 256) by {
            assert(a * 256 == 256 * a) by (nonlinear_arith);
        }
        assert(v / pow2(rest) % 256 == b);
        lemma_read_byte(buf, o / 8 + i);
        assert(8 * (o / 8 + i) == o + 8 * i);
    }
}

/// A packed buffer is determined: any two buffers that arose from writing
/// the same `n`-bit value at the same offset into the same original buffer
/// are equal, byte for byte.
pub proof fn lemma_pack_deterministic(
    init: Seq<u8>,
    b1: Seq<u8>,
    b2: Seq<u8>,
    o: int,
    n: nat,
    v: nat,
)
    requires
        b1.len() == init.len(),
        b2.len() == init.len(),
        0 <= o,
        o + n <= init.len() * 8,
        read_bits(b1, o, n) == v,
        read_bits(b2, o, n) == v,
        forall|j: int| 0 <= j < init.len() * 8 && !(o <= j < o + n) ==> bit_at(b1, j) == bit_at(init, j),
        forall|j: int| 0 <= j < init.len() * 8 && !(o <= j < o + n) ==> bit_at(b2, j) == bit_at(init, j),
    ensures
        b1 == b2,
{
    assert forall|i: int| 0 <= i < b1.len() * 8 implies bit_at(b1, i) == bit_at(b2, i) by {
        if o <= i < o + n {
            lemma_read_bits_extract(b1, o, n, i - o);
            lemma_read_bits_extract(b2, o, n, i - o);
        }
    }
    lemma_bits_determine_bytes(b1, b2);
}

/// Packing the members of a pair one by one, at manually computed
/// cumulative offsets, gives byte-for-byte the same buffer as packing the
/// pair as one composite value.
///
/// `buf1` is the result of the composite `pack` of `(a, b)` on `init`;
/// `mid` and `buf2` are the results of packing `a` at `o` on `init` and
/// then `b` at `o + A::spec_size()` on `mid`.  Each premise is the
/// corresponding `pack` postcondition.
pub proof fn lemma_members_vs_composite<A: Packed, B: Packed>(
    a: A,
    b: B,
    init: Seq<u8>,
    buf1: Seq<u8>,
    mid: Seq<u8>,
    buf2: Seq<u8>,
    o: int,
)
    requires
        buf1.len() == init.len(),
        mid.len() == init.len(),
        buf2.len() == mid.len(),
        0 <= o,
        o + A::spec_size() + B::spec_size() <= init.len() * 8,
        read_bits(buf1, o, <(A, B)>::spec_size()) == (a, b).bits(),
        forall|j: int|
            0 <= j < init.len() * 8 && !(o <= j < o + <(A, B)>::spec_size()) ==> bit_at(buf1, j)
                == bit_at(init, j),
        read_bits(mid, o, A::spec_size()) == a.bits(),
        forall|j: int|
            0 <= j < init.len() * 8 && !(o <= j < o + A::spec_size()) ==> bit_at(mid, j) == bit_at(
                init,
                j,
            ),
        read_bits(buf2, o + A::spec_size(), B::spec_size()) == b.bits(),
        forall|j: int|
            0 <= j < init.len() * 8 && !(o + A::spec_size() <= j < o + A::spec_size()
                + B::spec_size()) ==> bit_at(buf2, j) == bit_at(mid, j),
    ensures
        buf1 == buf2,
{
    let wa = A::spec_size();
    let wb = B::spec_size();
    lemma_read_bits_congruence(buf2, mid, o, wa);
    lemma_read_bits_concat(buf2, o, wa, wb);
    lemma_pack_deterministic(init, buf1, buf2, o, (wa + wb) as nat, (a, b).bits());
}

/// Two values of the same width and the same bit pattern pack alike: from
/// the same original buffer, both `pack` results are byte-for-byte equal.
pub proof fn lemma_same_pattern_packs_alike<S: Packed, U: Packed>(
    s: S,
    u: U,
    init: Seq<u8>,
    bs: Seq<u8>,
    bu: Seq<u8>,
    o: int,
)
    requires
        S::spec_size() == U::spec_size(),
        s.bits() == u.bits(),
        bs.len() == init.len(),
        bu.len() == init.len(),
        0 <= o,
        o + S::spec_size() <= init.len() * 8,
        read_bits(bs, o, S::spec_size()) == s.bits(),
        forall|j: int|
            0 <= j < init.len() * 8 && !(o <= j < o + S::spec_size()) ==> bit_at(bs, j) == bit_at(
                init,
                j,
            ),
        read_bits(bu, o, U::spec_size()) == u.bits(),
        forall|j: int|
            0 <= j < init.len() * 8 && !(o <= j < o + U::spec_size()) ==> bit_at(bu, j) == bit_at(
                init,
                j,
            ),
    ensures
        bs == bu,
{
    lemma_pack_deterministic(init, bs, bu, o, S::spec_size(), s.bits());
}

/// A signed value and the unsigned value with the same two's-complement
/// pattern have the same `bits()`: in particular `-1i8` packs exactly as
/// `255u8` does.
pub proof fn lemma_signed_unsigned_pattern()
    ensures
        (-1i8).bits() == (255u8).bits(),
        <i8 as Packed>::spec_size() == <u8 as Packed>::spec_size(),
        (-1i8).bits() == to_unsigned(-1, 8),
{
    lemma2_to64();
}

} // verus!
