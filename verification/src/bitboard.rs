use vstd::prelude::*;
use vstd::std_specs::bits::{axiom_u64_trailing_zeros, u64_trailing_zeros};

use crate::types::{BitBoard, Square};

verus! {

/// Bit `i` (0-63) of `x` is set.
pub open spec fn bit(x: u64, i: int) -> bool {
    (x >> (i as u64)) & 1u64 == 1u64
}

/// The lowest set bit of a non-zero `x`.
pub open spec fn lowest_bit(x: u64) -> int {
    u64_trailing_zeros(x) as int
}

impl BitBoard {
    /// The square with index `i` is in the set.
    pub open spec fn has(self, i: int) -> bool {
        bit(self.0, i)
    }

    /// Adds a square to the set.
    pub fn set_bit(&mut self, square: Square)
        ensures
            final(self).0 == old(self).0 | (1u64 << (square as u64)),
            forall|i: int| 0 <= i < 64 ==> #[trigger] final(self).has(i) == (old(self).has(i) || i == square as int),
    {
        proof {
            let s = square as u64;
            let b = self.0;
            assert forall|i: int| 0 <= i < 64 implies #[trigger] bit(b | (1u64 << s), i) == (bit(b, i) || i == s) by {
                lemma_bit_set(b, s, i as u64);
            }
        }
        self.0 = self.0 | square.as_bit();
    }

    /// Removes a square from the set.
    pub fn clear_bit(&mut self, square: Square)
        ensures
            final(self).0 == old(self).0 & !(1u64 << (square as u64)),
            forall|i: int| 0 <= i < 64 ==> #[trigger] final(self).has(i) == (old(self).has(i) && i != square as int),
    {
        proof {
            let s = square as u64;
            let b = self.0;
            assert forall|i: int| 0 <= i < 64 implies #[trigger] bit(b & !(1u64 << s), i) == (bit(b, i) && i != s) by {
                lemma_bit_clear(b, s, i as u64);
            }
        }
        self.0 = self.0 & !square.as_bit();
    }

    /// The square is in the set.
    pub fn is_bit_set(&self, square: Square) -> (r: bool)
        ensures
            r == self.has(square as int),
    {
        proof {
            lemma_bit_test(self.0, square as u64);
        }
        (self.0 & square.as_bit()) != 0
    }

    /// Removes the lowest square from the set and returns its index; returns 64,
    /// leaving the set as it is, when the set is empty.
    pub fn next_bit_mut(&mut self) -> (r: u8)
        ensures
            old(self).0 == 0 ==> r == 64 && final(self).0 == 0,
            old(self).0 != 0 ==> {
                &&& r < 64
                &&& r as int == lowest_bit(old(self).0)
                &&& old(self).has(r as int)
                &&& forall|i: int| 0 <= i < r ==> !#[trigger] old(self).has(i)
                &&& final(self).0 == old(self).0 & ((old(self).0 - 1) as u64)
                &&& final(self).0 < old(self).0
                &&& forall|i: int| 0 <= i < 64 ==> #[trigger] final(self).has(i) == (old(self).has(i) && i != r as int)
            },
    {
        if self.0 == 0 {
            return 64;
        }
        let b = self.0;
        let t = b.trailing_zeros();
        proof {
            lemma_lowest_bit_facts(b);
        }
        let bit_position = t as u8;
        self.0 = self.0 & (self.0 - 1);
        bit_position
    }

    /// The index of the lowest square of the set, or 64 when it is empty.
    pub fn next_bit(&self) -> (r: u8)
        ensures
            self.0 == 0 ==> r == 64,
            self.0 != 0 ==> {
                &&& r < 64
                &&& r as int == lowest_bit(self.0)
                &&& self.has(r as int)
                &&& forall|i: int| 0 <= i < r ==> !#[trigger] self.has(i)
            },
    {
        let mut copy = *self;
        copy.next_bit_mut()
    }
}

/// Setting bit `s` sets just that bit.
pub proof fn lemma_bit_set(b: u64, s: u64, i: u64)
    requires
        s < 64,
        i < 64,
    ensures
        bit(b | (1u64 << s), i as int) == (bit(b, i as int) || i == s),
{
    assert(((b | (1u64 << s)) >> i) & 1u64 == 1u64 <==> (((b >> i) & 1u64 == 1u64) || i == s)) by (bit_vector)
        requires
            s < 64,
            i < 64,
    ;
}

/// Clearing bit `s` clears just that bit.
pub proof fn lemma_bit_clear(b: u64, s: u64, i: u64)
    requires
        s < 64,
        i < 64,
    ensures
        bit(b & !(1u64 << s), i as int) == (bit(b, i as int) && i != s),
{
    assert(((b & !(1u64 << s)) >> i) & 1u64 == 1u64 <==> (((b >> i) & 1u64 == 1u64) && i != s)) by (bit_vector)
        requires
            s < 64,
            i < 64,
    ;
}

/// Masking with bit `s` tests that bit.
pub proof fn lemma_bit_test(b: u64, s: u64)
    requires
        s < 64,
    ensures
        ((b & (1u64 << s)) != 0) == bit(b, s as int),
{
    assert(((b & (1u64 << s)) != 0) <==> ((b >> s) & 1u64 == 1u64)) by (bit_vector)
        requires
            s < 64,
    ;
}

/// The bits of the lowest set bit, and of clearing it.
pub proof fn lemma_lowest_bit_facts(b: u64)
    requires
        b != 0,
    ensures
        lowest_bit(b) < 64,
        bit(b, lowest_bit(b)),
        forall|i: int| 0 <= i < lowest_bit(b) ==> !#[trigger] bit(b, i),
        b & ((b - 1) as u64) < b,
        forall|i: int| 0 <= i < 64 ==> #[trigger] bit(b & ((b - 1) as u64), i) == (bit(b, i) && i != lowest_bit(b)),
{
    axiom_u64_trailing_zeros(b);
    let t = u64_trailing_zeros(b) as u64;
    assert(t < 64);
    assert forall|i: int| 0 <= i < lowest_bit(b) implies !#[trigger] bit(b, i) by {
        let j = i as u64;
        assert((b >> j) & 1u64 == 0u64);
    }
    assert(b != 0 ==> b & ((b - 1) as u64) < b) by (bit_vector);
    assert forall|i: int| 0 <= i < 64 implies #[trigger] bit(b & ((b - 1) as u64), i) == (bit(b, i) && i != lowest_bit(b)) by {
        let j = i as u64;
        assert(((b & ((b - 1) as u64)) >> j) & 1u64 == 1u64 <==> (((b >> j) & 1u64 == 1u64) && j != t)) by (bit_vector)
            requires
                t < 64,
                j < 64,
                (b >> t) & 1u64 == 1u64,
                b << ((64 - t) as u64) == 0,
        ;
    }
}

/// Bits of `and`, `or`, `xor` and `not`.
pub proof fn lemma_bit_ops(a: u64, b: u64, i: int)
    requires
        0 <= i < 64,
    ensures
        bit(a & b, i) == (bit(a, i) && bit(b, i)),
        bit(a | b, i) == (bit(a, i) || bit(b, i)),
        bit(a ^ b, i) == (bit(a, i) != bit(b, i)),
        bit(!a, i) == !bit(a, i),
        !bit(0u64, i),
        bit(0xffff_ffff_ffff_ffffu64, i),
{
    let j = i as u64;
    assert(((a & b) >> j) & 1u64 == 1u64 <==> (((a >> j) & 1u64 == 1u64) && ((b >> j) & 1u64 == 1u64))) by (bit_vector);
    assert(((a | b) >> j) & 1u64 == 1u64 <==> (((a >> j) & 1u64 == 1u64) || ((b >> j) & 1u64 == 1u64))) by (bit_vector);
    assert(((a ^ b) >> j) & 1u64 == 1u64 <==> (((a >> j) & 1u64 == 1u64) != ((b >> j) & 1u64 == 1u64))) by (bit_vector);
    assert(((!a) >> j) & 1u64 == 1u64 <==> !((a >> j) & 1u64 == 1u64)) by (bit_vector) requires j < 64;
    assert(!((0u64 >> j) & 1u64 == 1u64)) by (bit_vector);
    assert((0xffff_ffff_ffff_ffffu64 >> j) & 1u64 == 1u64) by (bit_vector) requires j < 64;
}

/// The bits of all `and`, `or` and `not` combinations, for every index.
pub proof fn lemma_bit_ops_all(a: u64, b: u64)
    ensures
        forall|i: int| 0 <= i < 64 ==> #[trigger] bit(a & b, i) == (bit(a, i) && bit(b, i)),
        forall|i: int| 0 <= i < 64 ==> #[trigger] bit(a | b, i) == (bit(a, i) || bit(b, i)),
        forall|i: int| 0 <= i < 64 ==> #[trigger] bit(!a, i) == !bit(a, i),
{
    assert forall|i: int| 0 <= i < 64 implies #[trigger] bit(a & b, i) == (bit(a, i) && bit(b, i)) by {
        lemma_bit_ops(a, b, i);
    }
    assert forall|i: int| 0 <= i < 64 implies #[trigger] bit(a | b, i) == (bit(a, i) || bit(b, i)) by {
        lemma_bit_ops(a, b, i);
    }
    assert forall|i: int| 0 <= i < 64 implies #[trigger] bit(!a, i) == !bit(a, i) by {
        lemma_bit_ops(a, b, i);
    }
}

/// Two words with the same 64 bits are equal.
pub proof fn lemma_bits_ext(a: u64, b: u64)
    requires
        forall|i: int| 0 <= i < 64 ==> #[trigger] bit(a, i) == bit(b, i),
    ensures
        a == b,
{
    let d = a ^ b;
    if d != 0 {
        lemma_lowest_bit_facts(d);
        let t = lowest_bit(d);
        lemma_bit_ops(a, b, t);
        assert(bit(a, t) == bit(b, t));
        assert(false);
    }
    assert(a ^ b == 0u64 ==> a == b) by (bit_vector);
}

/// A word is zero exactly when none of its bits is set.
pub proof fn lemma_zero_iff_no_bits(a: u64)
    ensures
        (a == 0) <==> (forall|i: int| 0 <= i < 64 ==> !#[trigger] bit(a, i)),
{
    if a != 0 {
        lemma_lowest_bit_facts(a);
    } else {
        assert forall|i: int| 0 <= i < 64 implies !#[trigger] bit(a, i) by {
            lemma_bit_ops(a, a, i);
        }
    }
}

/// Shifting right by `k` moves bit `i + k` to bit `i`.
pub proof fn lemma_bit_shr(a: u64, k: u64, i: int)
    requires
        k < 64,
        0 <= i < 64,
    ensures
        bit(a >> k, i) == (i + k < 64 && bit(a, i + k)),
{
    let j = i as u64;
    if i + k < 64 {
        let m = (i + k) as u64;
        assert(((a >> k) >> j) & 1u64 == (a >> m) & 1u64) by (bit_vector)
            requires
                m == j + k,
                m < 64,
        ;
    } else {
        assert(((a >> k) >> j) & 1u64 == 0u64) by (bit_vector)
            requires
                j + k >= 64,
                j < 64,
                k < 64,
        ;
    }
}

/// Shifting left by `k` moves bit `i - k` to bit `i`.
pub proof fn lemma_bit_shl(a: u64, k: u64, i: int)
    requires
        k < 64,
        0 <= i < 64,
    ensures
        bit(a << k, i) == (i >= k && bit(a, i - k)),
{
    let j = i as u64;
    if i >= k {
        let m = (i - k) as u64;
        assert(((a << k) >> j) & 1u64 == (a >> m) & 1u64) by (bit_vector)
            requires
                j == m + k,
                j < 64,
        ;
    } else {
        assert(((a << k) >> j) & 1u64 == 0u64) by (bit_vector)
            requires
                j < k,
                k < 64,
        ;
    }
}

} // verus!
