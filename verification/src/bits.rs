//! Bit-level model of the board: population count, unions of placement
//! patterns, and the lemmas that relate them.

use vstd::prelude::*;

verus! {

/// Number of set bits in `x`.
pub open spec fn pop_count(x: u64) -> nat
    decreases x,
{
    if x == 0 {
        0
    } else {
        (x % 2) as nat + pop_count(x / 2)
    }
}

/// `pop_count` obeys its defining equation on every input, `0` included.
pub proof fn lemma_pop_count_unfold(x: u64)
    ensures
        pop_count(x) == (x % 2) as nat + pop_count(x / 2),
{
}

/// Bitwise `&` commutes.
pub proof fn lemma_and_comm(a: u64, b: u64)
    ensures
        a & b == b & a,
{
    assert(a & b == b & a) by (bit_vector);
}

/// Two disjoint masks contribute their bit counts independently to a union.
pub proof fn lemma_pop_count_or_disjoint(a: u64, b: u64)
    requires
        a & b == 0,
    ensures
        pop_count(a | b) == pop_count(a) + pop_count(b),
    decreases a | b,
{
    if a | b == 0 {
        assert(a == 0 && b == 0) by (bit_vector)
            requires
                a | b == 0,
        ;
    } else {
        assert(((a | b) % 2) as int == (a % 2) as int + (b % 2) as int && (a | b) / 2 == (a / 2)
            | (b / 2) && (a / 2) & (b / 2) == 0 && ((a / 2) | (b / 2)) < (a | b)) by (bit_vector)
            requires
                a & b == 0,
                a | b != 0,
        ;
        lemma_pop_count_or_disjoint(a / 2, b / 2);
        lemma_pop_count_unfold(a);
        lemma_pop_count_unfold(b);
        lemma_pop_count_unfold(a | b);
    }
}

/// `2^k` as a mathematical integer.
pub open spec fn pow2(k: nat) -> nat
    decreases k,
{
    if k == 0 {
        1
    } else {
        2 * pow2((k - 1) as nat)
    }
}

/// A value below `2^k` has at most `k` set bits.
pub proof fn lemma_pop_count_bound(x: u64, k: nat)
    requires
        (x as nat) < pow2(k),
    ensures
        pop_count(x) <= k,
    decreases k,
{
    if k == 0 {
    } else {
        let p1 = pow2((k - 1) as nat);
        let xn = x as nat;
        assert(pow2(k) == 2 * p1);
        assert((x / 2) as nat == xn / 2);
        assert(xn / 2 < p1) by (nonlinear_arith)
            requires
                xn < 2 * p1,
        ;
        lemma_pop_count_bound(x / 2, (k - 1) as nat);
        lemma_pop_count_unfold(x);
    }
}

/// A value below `2^k` with exactly `k` set bits is `2^k - 1`.
pub proof fn lemma_pop_count_full(x: u64, k: nat)
    requires
        (x as nat) < pow2(k),
        pop_count(x) == k,
    ensures
        x as nat == pow2(k) - 1,
    decreases k,
{
    if k == 0 {
    } else {
        let p1 = pow2((k - 1) as nat);
        let xn = x as nat;
        assert(pow2(k) == 2 * p1);
        assert((x / 2) as nat == xn / 2);
        assert(xn / 2 < p1) by (nonlinear_arith)
            requires
                xn < 2 * p1,
        ;
        lemma_pop_count_bound(x / 2, (k - 1) as nat);
        lemma_pop_count_unfold(x);
        lemma_pop_count_full(x / 2, (k - 1) as nat);
        vstd::arithmetic::div_mod::lemma_fundamental_div_mod(x as int, 2);
    }
}

/// A 64-bit value with 64 set bits is the all-ones mask.
pub proof fn lemma_pop_count_max(x: u64)
    requires
        pop_count(x) == 64,
    ensures
        x == u64::MAX,
{
    assert(pow2(64) == 0x1_0000_0000_0000_0000) by {
        reveal_with_fuel(pow2, 65);
    }
    lemma_pop_count_full(x, 64);
}

/// A power of two has exactly one set bit.
pub proof fn lemma_pop_count_pow2(v: u64, k: nat)
    requires
        k <= 63,
        v as nat == pow2(k),
    ensures
        pop_count(v) == 1,
    decreases k,
{
    if k == 0 {
        assert(pop_count(1u64) == 1) by {
            lemma_pop_count_unfold(1u64);
        }
    } else {
        let p1 = pow2((k - 1) as nat);
        assert(pow2(k) == 2 * p1);
        assert(v % 2 == 0 && (v / 2) as nat == p1);
        lemma_pop_count_pow2(v / 2, (k - 1) as nat);
        lemma_pop_count_unfold(v);
    }
}

/// The single bit at address `i` is the power of two `2^(63 - i)`.
pub proof fn lemma_bit_at_pow2(i: u64)
    requires
        i < 64,
    ensures
        (((1u64 << 63) >> i) as nat) == pow2((63 - i) as nat),
    decreases i,
{
    if i == 0 {
        assert(((1u64 << 63) >> 0u64) == 0x8000_0000_0000_0000u64) by (bit_vector);
        assert(pow2(63) == 0x8000_0000_0000_0000) by {
            reveal_with_fuel(pow2, 64);
        }
    } else {
        lemma_bit_at_pow2((i - 1) as u64);
        let j = (i - 1) as u64;
        assert(((1u64 << 63) >> i) == ((1u64 << 63) >> j) / 2 && ((1u64 << 63) >> j) % 2 == 0)
            by (bit_vector)
            requires
                1 <= i < 64,
                j == i - 1,
        ;
        assert(pow2((63 - j) as nat) == 2 * pow2((63 - i) as nat));
    }
}

/// The single bit at address `i` has one set bit and is not zero.
pub proof fn lemma_pop_count_bit(i: u64)
    requires
        i < 64,
    ensures
        pop_count((1u64 << 63) >> i) == 1,
        ((1u64 << 63) >> i) != 0,
{
    lemma_bit_at_pow2(i);
    lemma_pop_count_pow2((1u64 << 63) >> i, (63 - i) as nat);
}

/// A right shift that can be undone dropped no set bit.
pub proof fn lemma_pop_count_shr(v: u64, s: u64)
    requires
        s < 64,
        ((v >> s) << s) == v,
    ensures
        pop_count(v >> s) == pop_count(v),
    decreases s,
{
    if s == 0 {
        assert(v >> 0u64 == v) by (bit_vector);
    } else {
        let w = v >> 1u64;
        let t = (s - 1) as u64;
        assert(v % 2 == 0 && w == v / 2 && ((w >> t) << t) == w && (v >> s) == (w >> t))
            by (bit_vector)
            requires
                1 <= s < 64,
                t == s - 1,
                w == v >> 1u64,
                ((v >> s) << s) == v,
        ;
        lemma_pop_count_shr(w, t);
        lemma_pop_count_unfold(v);
    }
}

/// Bitwise `|` associates and absorbs its operands.
pub proof fn lemma_or_assoc(a: u64, b: u64, c: u64)
    ensures
        (a | b) | c == a | (b | c),
        (a | b) & a == a,
        a & (a | b) == a,
{
    assert((a | b) | c == a | (b | c) && (a | b) & a == a && a & (a | b) == a) by (bit_vector);
}

/// What avoids a mask avoids anything the mask contains.
pub proof fn lemma_disjoint_of_superset(p: u64, bb: u64, e: u64)
    requires
        bb & e == e,
        p & bb == 0,
    ensures
        p & e == 0,
        e & p == 0,
{
    assert(bb & e == e && p & bb == 0 ==> p & e == 0 && e & p == 0) by (bit_vector);
}

/// Bitwise union of a sequence of placement patterns.
pub open spec fn union_of(s: Seq<u64>) -> u64
    decreases s.len(),
{
    if s.len() == 0 {
        0u64
    } else {
        union_of(s.drop_last()) | s.last()
    }
}

/// The patterns of `s` share no set bit with one another.
pub open spec fn pairwise_disjoint(s: Seq<u64>) -> bool {
    forall|i: int, j: int| 0 <= i < j < s.len() ==> s[i] & s[j] == 0
}

/// Appending a pattern extends the union by that pattern.
pub proof fn lemma_union_push(s: Seq<u64>, p: u64)
    ensures
        union_of(s.push(p)) == union_of(s) | p,
{
    assert(s.push(p).drop_last() =~= s);
    assert(s.push(p).last() == p);
}

/// A pattern disjoint from every member of `s` extends pairwise disjointness.
pub proof fn lemma_pairwise_push(s: Seq<u64>, p: u64)
    requires
        pairwise_disjoint(s),
        forall|i: int| 0 <= i < s.len() ==> s[i] & p == 0,
    ensures
        pairwise_disjoint(s.push(p)),
{
    let t = s.push(p);
    assert forall|i: int, j: int| 0 <= i < j < t.len() implies t[i] & t[j] == 0 by {
        if j < s.len() {
            assert(s[i] & s[j] == 0);
        } else {
            assert(s[i] & p == 0);
        }
    }
}

} // verus!
