//! Composite codecs: fixed-size arrays and fixed-arity tuples.
//!
//! An array of `N` elements of width `E` occupies `N * E` bits, element `i`
//! at relative offset `i * E`.  A tuple occupies the sum of its members'
//! widths, each member at the cumulative offset of the widths before it,
//! in declaration order with no gaps.  Tuples of three or more members are
//! defined by head/tail decomposition: their layout is that of the pair of
//! the first member and the tuple of the rest.

use vstd::prelude::*;

verus! {

use vstd::arithmetic::power2::pow2;
use vstd::arithmetic::power2::lemma_pow2_pos;
use vstd::arithmetic::power2::lemma_pow2_adds;
use vstd::arithmetic::div_mod::lemma_fundamental_div_mod_converse;
use vstd::arithmetic::mul::lemma_mul_inequality;
use crate::bits::read_bits;
use crate::bits::lemma_read_bits_concat;
use crate::bits::lemma_read_bits_congruence;
use crate::codec::Packed;

broadcast use vstd::array::group_array_axioms;

/// The bit pattern of a sequence of packed values: each element's pattern
/// in order, most significant first.
pub open spec fn seq_bits<T: Packed>(s: Seq<T>) -> nat
    decreases s.len(),
{
    if s.len() == 0 {
        0
    } else {
        seq_bits(s.drop_last()) * pow2(T::spec_size()) + s.last().bits()
    }
}

/// Concatenating a `wa`-bit pattern and a `wb`-bit pattern stays below
/// `pow2(wa + wb)`.
proof fn lemma_combine_bound(a: nat, b: nat, wa: nat, wb: nat)
    requires
        a < pow2(wa),
        b < pow2(wb),
    ensures
        a * pow2(wb) + b < pow2(wa + wb),
{
    lemma_pow2_adds(wa, wb);
    lemma_mul_inequality(a as int, (pow2(wa) - 1) as int, pow2(wb) as int);
    assert((pow2(wa) - 1) * pow2(wb) == pow2(wa) * pow2(wb) - pow2(wb)) by (nonlinear_arith);
}

/// The two halves of a concatenated pattern are recovered by division and
/// remainder, so concatenation is injective in both halves.
proof fn lemma_combine_injective(a1: nat, b1: nat, a2: nat, b2: nat, wb: nat)
    requires
        b1 < pow2(wb),
        b2 < pow2(wb),
        a1 * pow2(wb) + b1 == a2 * pow2(wb) + b2,
    ensures
        a1 == a2,
        b1 == b2,
{
    lemma_pow2_pos(wb);
    let x = (a1 * pow2(wb) + b1) as int;
    lemma_fundamental_div_mod_converse(x, pow2(wb) as int, a1 as int, b1 as int);
    lemma_fundamental_div_mod_converse(x, pow2(wb) as int, a2 as int, b2 as int);
}

/// A sequence's bit pattern fits in `len * E` bits.
pub proof fn lemma_seq_bits_bound<T: Packed>(s: Seq<T>)
    ensures
        seq_bits(s) < pow2(s.len() * T::spec_size()),
    decreases s.len(),
{
    if s.len() == 0 {
        lemma_pow2_pos(0);
    } else {
        lemma_seq_bits_bound(s.drop_last());
        s.last().lemma_bits_bound();
        lemma_combine_bound(
            seq_bits(s.drop_last()),
            s.last().bits(),
            s.drop_last().len() * T::spec_size(),
            T::spec_size(),
        );
        assert(s.len() * T::spec_size() == (s.len() - 1) * T::spec_size() + T::spec_size())
            by (nonlinear_arith);
    }
}

/// Two sequences of equal length with the same bit pattern are equal.
pub proof fn lemma_seq_bits_injective<T: Packed>(s1: Seq<T>, s2: Seq<T>)
    requires
        s1.len() == s2.len(),
        seq_bits(s1) == seq_bits(s2),
    ensures
        s1 == s2,
    decreases s1.len(),
{
    if s1.len() == 0 {
        assert(s1 =~= s2);
    } else {
        lemma_seq_bits_bound(s1.drop_last());
        lemma_seq_bits_bound(s2.drop_last());
        s1.last().lemma_bits_bound();
        s2.last().lemma_bits_bound();
        lemma_combine_injective(
            seq_bits(s1.drop_last()),
            s1.last().bits(),
            seq_bits(s2.drop_last()),
            s2.last().bits(),
            T::spec_size(),
        );
        s1.last().lemma_bits_injective(s2.last());
        lemma_seq_bits_injective(s1.drop_last(), s2.drop_last());
        assert forall|i: int| 0 <= i < s1.len() implies s1[i] == s2[i] by {
            if i < s1.len() - 1 {
                assert(s1[i] == s1.drop_last()[i]);
                assert(s2[i] == s2.drop_last()[i]);
            } else {
                assert(s1[i] == s1.last());
                assert(s2[i] == s2.last());
            }
        }
        assert(s1 =~= s2);
    }
}

/// Relies on `From<[T; N]> for Vec<T>`: the vector holds the array's
/// elements in order.
#[verifier::external_body]
fn array_to_vec<T, const N: usize>(a: [T; N]) -> (r: Vec<T>)
    ensures
        r@ == a@,
{
    Vec::from(a)
}

/// Relies on `TryFrom<Vec<T>> for [T; N]`: a vector of exactly `N` elements
/// converts to the array of those elements in order.
#[verifier::external_body]
fn vec_to_array<T, const N: usize>(v: Vec<T>) -> (r: [T; N])
    requires
        v@.len() == N,
    ensures
        r@ == v@,
{
    <[T; N]>::try_from(v).ok().unwrap()
}

impl<T: Packed, const N: usize> Packed for [T; N] {
    open spec fn spec_size() -> nat {
        (N * T::spec_size()) as nat
    }

    open spec fn bits(self) -> nat {
        seq_bits(self@)
    }

    proof fn lemma_bits_bound(self) {
        lemma_seq_bits_bound(self@);
    }

    proof fn lemma_bits_injective(self, other: [T; N]) {
        lemma_seq_bits_injective(self@, other@);
        assert(self =~= other);
    }

    fn size() -> (r: usize) {
        if N == 0 {
            0
        } else {
            proof {
                lemma_mul_inequality(1, N as int, T::spec_size() as int);
            }
            let e = T::size();
            N * e
        }
    }

    fn unpack(bytes: &[u8], offset: usize) -> (r: [T; N]) {
        let mut v: Vec<T> = Vec::new();
        if N > 0 {
            proof {
                lemma_mul_inequality(1, N as int, T::spec_size() as int);
            }
            let esize = T::size();
            let mut i: usize = 0;
            while i < N
                invariant
                    i <= N,
                    esize as nat == T::spec_size(),
                    offset + N * T::spec_size() <= bytes@.len() * 8,
                    offset + N * T::spec_size() <= usize::MAX,
                    v@.len() == i,
                    seq_bits(v@) == read_bits(
                        bytes@,
                        offset as int,
                        (i * T::spec_size()) as nat,
                    ),
                decreases N - i,
            {
                proof {
                    lemma_mul_inequality(i as int, N as int, T::spec_size() as int);
                    lemma_mul_inequality(i + 1, N as int, T::spec_size() as int);
                    assert((i + 1) * T::spec_size() == i * T::spec_size() + T::spec_size())
                        by (nonlinear_arith);
                }
                let x = T::unpack(bytes, offset + i * esize);
                proof {
                    lemma_read_bits_concat(
                        bytes@,
                        offset as int,
                        (i * T::spec_size()) as nat,
                        T::spec_size(),
                    );
                    assert((v@.push(x)).drop_last() =~= v@);
                }
                v.push(x);
                i = i + 1;
            }
        }
        let r = vec_to_array(v);
        proof {
            assert(N * T::spec_size() == 0 ==> read_bits(
                bytes@,
                offset as int,
                (N * T::spec_size()) as nat,
            ) == 0);
        }
        r
    }

    fn pack(self, bytes: &mut Vec<u8>, offset: usize) {
        let ghost s = self@;
        if N == 0 {
            return ;
        }
        proof {
            lemma_mul_inequality(1, N as int, T::spec_size() as int);
        }
        let esize = T::size();
        let mut v: Vec<T> = array_to_vec(self);
        let mut i: usize = 0;
        while i < N
            invariant
                i <= N,
                s.len() == N,
                esize as nat == T::spec_size(),
                offset + N * T::spec_size() <= old(bytes)@.len() * 8,
                offset + N * T::spec_size() <= usize::MAX,
                bytes@.len() == old(bytes)@.len(),
                v@ == s.subrange(i as int, N as int),
                read_bits(bytes@, offset as int, (i * T::spec_size()) as nat) == seq_bits(
                    s.subrange(0, i as int),
                ),
                forall|j: int|
                    0 <= j < bytes@.len() * 8 && !(offset <= j < offset + i * T::spec_size())
                        ==> crate::bits::bit_at(bytes@, j) == crate::bits::bit_at(old(bytes)@, j),
            decreases N - i,
        {
            proof {
                lemma_mul_inequality(i as int, N as int, T::spec_size() as int);
                lemma_mul_inequality(i + 1, N as int, T::spec_size() as int);
                assert((i + 1) * T::spec_size() == i * T::spec_size() + T::spec_size())
                    by (nonlinear_arith);
                assert(s.subrange(i as int, N as int).remove(0) =~= s.subrange(i + 1, N as int));
            }
            let x = v.remove(0);
            let ghost pre = bytes@;
            x.pack(bytes, offset + i * esize);
            proof {
                lemma_read_bits_congruence(
                    bytes@,
                    pre,
                    offset as int,
                    (i * T::spec_size()) as nat,
                );
                lemma_read_bits_concat(
                    bytes@,
                    offset as int,
                    (i * T::spec_size()) as nat,
                    T::spec_size(),
                );
                assert(s.subrange(0, i + 1).drop_last() =~= s.subrange(0, i as int));
                assert(s.subrange(0, i + 1).last() == s[i as int]);
            }
            i = i + 1;
        }
        proof {
            assert(s.subrange(0, N as int) =~= s);
        }
    }
}

impl<A: Packed> Packed for (A,) {
    open spec fn spec_size() -> nat {
        A::spec_size()
    }

    open spec fn bits(self) -> nat {
        self.0.bits()
    }

    proof fn lemma_bits_bound(self) {
        self.0.lemma_bits_bound();
    }

    proof fn lemma_bits_injective(self, other: (A,)) {
        self.0.lemma_bits_injective(other.0);
    }

    fn size() -> usize {
        A::size()
    }

    fn unpack(bytes: &[u8], offset: usize) -> (A,) {
        (A::unpack(bytes, offset),)
    }

    fn pack(self, bytes: &mut Vec<u8>, offset: usize) {
        self.0.pack(bytes, offset);
    }
}

impl<A: Packed, B: Packed> Packed for (A, B) {
    open spec fn spec_size() -> nat {
        A::spec_size() + B::spec_size()
    }

    open spec fn bits(self) -> nat {
        self.0.bits() * pow2(B::spec_size()) + self.1.bits()
    }

    proof fn lemma_bits_bound(self) {
        self.0.lemma_bits_bound();
        self.1.lemma_bits_bound();
        lemma_combine_bound(self.0.bits(), self.1.bits(), A::spec_size(), B::spec_size());
    }

    proof fn lemma_bits_injective(self, other: (A, B)) {
        self.1.lemma_bits_bound();
        other.1.lemma_bits_bound();
        lemma_combine_injective(
            self.0.bits(),
            self.1.bits(),
            other.0.bits(),
            other.1.bits(),
            B::spec_size(),
        );
        self.0.lemma_bits_injective(other.0);
        self.1.lemma_bits_injective(other.1);
    }

    fn size() -> usize {
        A::size() + B::size()
    }

    fn unpack(bytes: &[u8], offset: usize) -> (A, B) {
        let a = A::unpack(bytes, offset);
        let sa = A::size();
        let b = B::unpack(bytes, offset + sa);
        proof {
            lemma_read_bits_concat(bytes@, offset as int, A::spec_size(), B::spec_size());
        }
        (a, b)
    }

    fn pack(self, bytes: &mut Vec<u8>, offset: usize) {
        let sa = A::size();
        let (a, b) = self;
        a.pack(bytes, offset);
        let ghost mid = bytes@;
        b.pack(bytes, offset + sa);
        proof {
            lemma_read_bits_congruence(bytes@, mid, offset as int, A::spec_size());
            lemma_read_bits_concat(bytes@, offset as int, A::spec_size(), B::spec_size());
        }
    }
}

impl<A: Packed, B: Packed, C: Packed> Packed for (A, B, C) {
    open spec fn spec_size() -> nat {
        A::spec_size() + <(B, C)>::spec_size()
    }

    open spec fn bits(self) -> nat {
        self.0.bits() * pow2(<(B, C)>::spec_size()) + (self.1, self.2).bits()
    }

    proof fn lemma_bits_bound(self) {
        (self.0, (self.1, self.2)).lemma_bits_bound();
    }

    proof fn lemma_bits_injective(self, other: (A, B, C)) {
        (self.0, (self.1, self.2)).lemma_bits_injective((other.0, (other.1, other.2)));
    }

    fn size() -> usize {
        A::size() + <(B, C)>::size()
    }

    fn unpack(bytes: &[u8], offset: usize) -> (A, B, C) {
        let (a, t) = <(A, (B, C))>::unpack(bytes, offset);
        let (b, c) = t;
        (a, b, c)
    }

    fn pack(self, bytes: &mut Vec<u8>, offset: usize) {
        let (a, b, c) = self;
        (a, (b, c)).pack(bytes, offset);
    }
}

impl<A: Packed, B: Packed, C: Packed, D: Packed> Packed for (A, B, C, D) {
    open spec fn spec_size() -> nat {
        A::spec_size() + <(B, C, D)>::spec_size()
    }

    open spec fn bits(self) -> nat {
        self.0.bits() * pow2(<(B, C, D)>::spec_size()) + (self.1, self.2, self.3).bits()
    }

    proof fn lemma_bits_bound(self) {
        (self.0, (self.1, self.2, self.3)).lemma_bits_bound();
    }

    proof fn lemma_bits_injective(self, other: (A, B, C, D)) {
        (self.0, (self.1, self.2, self.3)).lemma_bits_injective((other.0, (other.1, other.2, other.3)));
    }

    fn size() -> usize {
        A::size() + <(B, C, D)>::size()
    }

    fn unpack(bytes: &[u8], offset: usize) -> (A, B, C, D) {
        let (a, t) = <(A, (B, C, D))>::unpack(bytes, offset);
        let (b, c, d) = t;
        (a, b, c, d)
    }

    fn pack(self, bytes: &mut Vec<u8>, offset: usize) {
        let (a, b, c, d) = self;
        (a, (b, c, d)).pack(bytes, offset);
    }
}

impl<A: Packed, B: Packed, C: Packed, D: Packed, E: Packed> Packed for (A, B, C, D, E) {
    open spec fn spec_size() -> nat {
        A::spec_size() + <(B, C, D, E)>::spec_size()
    }

    open spec fn bits(self) -> nat {
        self.0.bits() * pow2(<(B, C, D, E)>::spec_size()) + (self.1, self.2, self.3, self.4).bits()
    }

    proof fn lemma_bits_bound(self) {
        (self.0, (self.1, self.2, self.3, self.4)).lemma_bits_bound();
    }

    proof fn lemma_bits_injective(self, other: (A, B, C, D, E)) {
        (self.0, (self.1, self.2, self.3, self.4)).lemma_bits_injective((other.0, (other.1, other.2, other.3, other.4)));
    }

    fn size() -> usize {
        A::size() + <(B, C, D, E)>::size()
    }

    fn unpack(bytes: &[u8], offset: usize) -> (A, B, C, D, E) {
        let (a, t) = <(A, (B, C, D, E))>::unpack(bytes, offset);
        let (b, c, d, e) = t;
        (a, b, c, d, e)
    }

    fn pack(self, bytes: &mut Vec<u8>, offset: usize) {
        let (a, b, c, d, e) = self;
        (a, (b, c, d, e)).pack(bytes, offset);
    }
}

impl<A: Packed, B: Packed, C: Packed, D: Packed, E: Packed, F: Packed> Packed for (A, B, C, D, E, F) {
    open spec fn spec_size() -> nat {
        A::spec_size() + <(B, C, D, E, F)>::spec_size()
    }

    open spec fn bits(self) -> nat {
        self.0.bits() * pow2(<(B, C, D, E, F)>::spec_size()) + (self.1, self.2, self.3, self.4, self.5).bits()
    }

    proof fn lemma_bits_bound(self) {
        (self.0, (self.1, self.2, self.3, self.4, self.5)).lemma_bits_bound();
    }

    proof fn lemma_bits_injective(self, other: (A, B, C, D, E, F)) {
        (self.0, (self.1, self.2, self.3, self.4, self.5)).lemma_bits_injective((other.0, (other.1, other.2, other.3, other.4, other.5)));
    }

    fn size() -> usize {
        A::size() + <(B, C, D, E, F)>::size()
    }

    fn unpack(bytes: &[u8], offset: usize) -> (A, B, C, D, E, F) {
        let (a, t) = <(A, (B, C, D, E, F))>::unpack(bytes, offset);
        let (b, c, d, e, f) = t;
        (a, b, c, d, e, f)
    }

    fn pack(self, bytes: &mut Vec<u8>, offset: usize) {
        let (a, b, c, d, e, f) = self;
        (a, (b, c, d, e, f)).pack(bytes, offset);
    }
}

impl<A: Packed, B: Packed, C: Packed, D: Packed, E: Packed, F: Packed, G: Packed> Packed for (A, B, C, D, E, F, G) {
    open spec fn spec_size() -> nat {
        A::spec_size() + <(B, C, D, E, F, G)>::spec_size()
    }

    open spec fn bits(self) -> nat {
        self.0.bits() * pow2(<(B, C, D, E, F, G)>::spec_size()) + (self.1, self.2, self.3, self.4, self.5, self.6).bits()
    }

    proof fn lemma_bits_bound(self) {
        (self.0, (self.1, self.2, self.3, self.4, self.5, self.6)).lemma_bits_bound();
    }

    proof fn lemma_bits_injective(self, other: (A, B, C, D, E, F, G)) {
        (self.0, (self.1, self.2, self.3, self.4, self.5, self.6)).lemma_bits_injective((other.0, (other.1, other.2, other.3, other.4, other.5, other.6)));
    }

    fn size() -> usize {
        A::size() + <(B, C, D, E, F, G)>::size()
    }

    fn unpack(bytes: &[u8], offset: usize) -> (A, B, C, D, E, F, G) {
        let (a, t) = <(A, (B, C, D, E, F, G))>::unpack(bytes, offset);
        let (b, c, d, e, f, g) = t;
        (a, b, c, d, e, f, g)
    }

    fn pack(self, bytes: &mut Vec<u8>, offset: usize) {
        let (a, b, c, d, e, f, g) = self;
        (a, (b, c, d, e, f, g)).pack(bytes, offset);
    }
}

impl<A: Packed, B: Packed, C: Packed, D: Packed, E: Packed, F: Packed, G: Packed, H: Packed> Packed for (A, B, C, D, E, F, G, H) {
    open spec fn spec_size() -> nat {
        A::spec_size() + <(B, C, D, E, F, G, H)>::spec_size()
    }

    open spec fn bits(self) -> nat {
        self.0.bits() * pow2(<(B, C, D, E, F, G, H)>::spec_size()) + (self.1, self.2, self.3, self.4, self.5, self.6, self.7).bits()
    }

    proof fn lemma_bits_bound(self) {
        (self.0, (self.1, self.2, self.3, self.4, self.5, self.6, self.7)).lemma_bits_bound();
    }

    proof fn lemma_bits_injective(self, other: (A, B, C, D, E, F, G, H)) {
        (self.0, (self.1, self.2, self.3, self.4, self.5, self.6, self.7)).lemma_bits_injective((other.0, (other.1, other.2, other.3, other.4, other.5, other.6, other.7)));
    }

    fn size() -> usize {
        A::size() + <(B, C, D, E, F, G, H)>::size()
    }

    fn unpack(bytes: &[u8], offset: usize) -> (A, B, C, D, E, F, G, H) {
        let (a, t) = <(A, (B, C, D, E, F, G, H))>::unpack(bytes, offset);
        let (b, c, d, e, f, g, h) = t;
        (a, b, c, d, e, f, g, h)
    }

    fn pack(self, bytes: &mut Vec<u8>, offset: usize) {
        let (a, b, c, d, e, f, g, h) = self;
        (a, (b, c, d, e, f, g, h)).pack(bytes, offset);
    }
}

impl<A: Packed, B: Packed, C: Packed, D: Packed, E: Packed, F: Packed, G: Packed, H: Packed, I: Packed> Packed for (A, B, C, D, E, F, G, H, I) {
    open spec fn spec_size() -> nat {
        A::spec_size() + <(B, C, D, E, F, G, H, I)>::spec_size()
    }

    open spec fn bits(self) -> nat {
        self.0.bits() * pow2(<(B, C, D, E, F, G, H, I)>::spec_size()) + (self.1, self.2, self.3, self.4, self.5, self.6, self.7, self.8).bits()
    }

    proof fn lemma_bits_bound(self) {
        (self.0, (self.1, self.2, self.3, self.4, self.5, self.6, self.7, self.8)).lemma_bits_bound();
    }

    proof fn lemma_bits_injective(self, other: (A, B, C, D, E, F, G, H, I)) {
        (self.0, (self.1, self.2, self.3, self.4, self.5, self.6, self.7, self.8)).lemma_bits_injective((other.0, (other.1, other.2, other.3, other.4, other.5, other.6, other.7, other.8)));
    }

    fn size() -> usize {
        A::size() + <(B, C, D, E, F, G, H, I)>::size()
    }

    fn unpack(bytes: &[u8], offset: usize) -> (A, B, C, D, E, F, G, H, I) {
        let (a, t) = <(A, (B, C, D, E, F, G, H, I))>::unpack(bytes, offset);
        let (b, c, d, e, f, g, h, i) = t;
        (a, b, c, d, e, f, g, h, i)
    }

    fn pack(self, bytes: &mut Vec<u8>, offset: usize) {
        let (a, b, c, d, e, f, g, h, i) = self;
        (a, (b, c, d, e, f, g, h, i)).pack(bytes, offset);
    }
}

impl<A: Packed, B: Packed, C: Packed, D: Packed, E: Packed, F: Packed, G: Packed, H: Packed, I: Packed, J: Packed> Packed for (A, B, C, D, E, F, G, H, I, J) {
    open spec fn spec_size() -> nat {
        A::spec_size() + <(B, C, D, E, F, G, H, I, J)>::spec_size()
    }

    open spec fn bits(self) -> nat {
        self.0.bits() * pow2(<(B, C, D, E, F, G, H, I, J)>::spec_size()) + (self.1, self.2, self.3, self.4, self.5, self.6, self.7, self.8, self.9).bits()
    }

    proof fn lemma_bits_bound(self) {
        (self.0, (self.1, self.2, self.3, self.4, self.5, self.6, self.7, self.8, self.9)).lemma_bits_bound();
    }

    proof fn lemma_bits_injective(self, other: (A, B, C, D, E, F, G, H, I, J)) {
        (self.0, (self.1, self.2, self.3, self.4, self.5, self.6, self.7, self.8, self.9)).lemma_bits_injective((other.0, (other.1, other.2, other.3, other.4, other.5, other.6, other.7, other.8, other.9)));
    }

    fn size() -> usize {
        A::size() + <(B, C, D, E, F, G, H, I, J)>::size()
    }

    fn unpack(bytes: &[u8], offset: usize) -> (A, B, C, D, E, F, G, H, I, J) {
        let (a, t) = <(A, (B, C, D, E, F, G, H, I, J))>::unpack(bytes, offset);
        let (b, c, d, e, f, g, h, i, j) = t;
        (a, b, c, d, e, f, g, h, i, j)
    }

    fn pack(self, bytes: &mut Vec<u8>, offset: usize) {
        let (a, b, c, d, e, f, g, h, i, j) = self;
        (a, (b, c, d, e, f, g, h, i, j)).pack(bytes, offset);
    }
}

impl<A: Packed, B: Packed, C: Packed, D: Packed, E: Packed, F: Packed, G: Packed, H: Packed, I: Packed, J: Packed, K: Packed> Packed for (A, B, C, D, E, F, G, H, I, J, K) {
    open spec fn spec_size() -> nat {
        A::spec_size() + <(B, C, D, E, F, G, H, I, J, K)>::spec_size()
    }

    open spec fn bits(self) -> nat {
        self.0.bits() * pow2(<(B, C, D, E, F, G, H, I, J, K)>::spec_size()) + (self.1, self.2, self.3, self.4, self.5, self.6, self.7, self.8, self.9, self.10).bits()
    }

    proof fn lemma_bits_bound(self) {
        (self.0, (self.1, self.2, self.3, self.4, self.5, self.6, self.7, self.8, self.9, self.10)).lemma_bits_bound();
    }

    proof fn lemma_bits_injective(self, other: (A, B, C, D, E, F, G, H, I, J, K)) {
        (self.0, (self.1, self.2, self.3, self.4, self.5, self.6, self.7, self.8, self.9, self.10)).lemma_bits_injective((other.0, (other.1, other.2, other.3, other.4, other.5, other.6, other.7, other.8, other.9, other.10)));
    }

    fn size() -> usize {
        A::size() + <(B, C, D, E, F, G, H, I, J, K)>::size()
    }

    fn unpack(bytes: &[u8], offset: usize) -> (A, B, C, D, E, F, G, H, I, J, K) {
        let (a, t) = <(A, (B, C, D, E, F, G, H, I, J, K))>::unpack(bytes, offset);
        let (b, c, d, e, f, g, h, i, j, k) = t;
        (a, b, c, d, e, f, g, h, i, j, k)
    }

    fn pack(self, bytes: &mut Vec<u8>, offset: usize) {
        let (a, b, c, d, e, f, g, h, i, j, k) = self;
        (a, (b, c, d, e, f, g, h, i, j, k)).pack(bytes, offset);
    }
}

impl<A: Packed, B: Packed, C: Packed, D: Packed, E: Packed, F: Packed, G: Packed, H: Packed, I: Packed, J: Packed, K: Packed, L: Packed> Packed for (A, B, C, D, E, F, G, H, I, J, K, L) {
    open spec fn spec_size() -> nat {
        A::spec_size() + <(B, C, D, E, F, G, H, I, J, K, L)>::spec_size()
    }

    open spec fn bits(self) -> nat {
        self.0.bits() * pow2(<(B, C, D, E, F, G, H, I, J, K, L)>::spec_size()) + (self.1, self.2, self.3, self.4, self.5, self.6, self.7, self.8, self.9, self.10, self.11).bits()
    }

    proof fn lemma_bits_bound(self) {
        (self.0, (self.1, self.2, self.3, self.4, self.5, self.6, self.7, self.8, self.9, self.10, self.11)).lemma_bits_bound();
    }

    proof fn lemma_bits_injective(self, other: (A, B, C, D, E, F, G, H, I, J, K, L)) {
        (self.0, (self.1, self.2, self.3, self.4, self.5, self.6, self.7, self.8, self.9, self.10, self.11)).lemma_bits_injective((other.0, (other.1, other.2, other.3, other.4, other.5, other.6, other.7, other.8, other.9, other.10, other.11)));
    }

    fn size() -> usize {
        A::size() + <(B, C, D, E, F, G, H, I, J, K, L)>::size()
    }

    fn unpack(bytes: &[u8], offset: usize) -> (A, B, C, D, E, F, G, H, I, J, K, L) {
        let (a, t) = <(A, (B, C, D, E, F, G, H, I, J, K, L))>::unpack(bytes, offset);
        let (b, c, d, e, f, g, h, i, j, k, l) = t;
        (a, b, c, d, e, f, g, h, i, j, k, l)
    }

    fn pack(self, bytes: &mut Vec<u8>, offset: usize) {
        let (a, b, c, d, e, f, g, h, i, j, k, l) = self;
        (a, (b, c, d, e, f, g, h, i, j, k, l)).pack(bytes, offset);
    }
}

} // verus!
