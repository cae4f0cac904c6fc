//! The arithmetic a filter needs from its samples.
use vstd::prelude::*;
use vstd::arithmetic::div_mod::{
    lemma_add_mod_noop, lemma_fundamental_div_mod_converse_mod, lemma_mod_multiples_vanish, lemma_mod_twice,
    lemma_mul_mod_noop,
};

verus! {

/// A sample type that filters can add, multiply and compare.
///
/// Each operation is described by a spec function, so that what a filter
/// computes can be stated for any sample type.
pub trait Sample: Copy + Sized {
    /// The additive identity.
    spec fn spec_zero() -> Self;

    /// The multiplicative identity.
    spec fn spec_one() -> Self;

    /// The sample holding the small integer `v`.
    spec fn spec_from_i8(v: i8) -> Self;

    spec fn spec_add(a: Self, b: Self) -> Self;

    spec fn spec_mul(a: Self, b: Self) -> Self;

    spec fn spec_neg(a: Self) -> Self;

    /// `a < b`.
    spec fn spec_lt(a: Self, b: Self) -> bool;

    /// `a <= b`.
    spec fn spec_le(a: Self, b: Self) -> bool;

    fn zero() -> (r: Self)
        ensures
            r == Self::spec_zero(),
    ;

    fn one() -> (r: Self)
        ensures
            r == Self::spec_one(),
    ;

    fn from_i8(v: i8) -> (r: Self)
        ensures
            r == Self::spec_from_i8(v),
    ;

    fn add(a: Self, b: Self) -> (r: Self)
        ensures
            r == Self::spec_add(a, b),
    ;

    fn mul(a: Self, b: Self) -> (r: Self)
        ensures
            r == Self::spec_mul(a, b),
    ;

    fn neg(a: Self) -> (r: Self)
        ensures
            r == Self::spec_neg(a),
    ;

    fn lt(a: Self, b: Self) -> (r: bool)
        ensures
            r == Self::spec_lt(a, b),
    ;

    fn le(a: Self, b: Self) -> (r: bool)
        ensures
            r == Self::spec_le(a, b),
    ;
}

/// Exact integer samples, with two's-complement wrapping arithmetic.
impl Sample for i64 {
    open spec fn spec_zero() -> i64 {
        0
    }

    open spec fn spec_one() -> i64 {
        1
    }

    open spec fn spec_from_i8(v: i8) -> i64 {
        v as i64
    }

    open spec fn spec_add(a: i64, b: i64) -> i64 {
        a.wrapping_add(b)
    }

    open spec fn spec_mul(a: i64, b: i64) -> i64 {
        a.wrapping_mul(b)
    }

    open spec fn spec_neg(a: i64) -> i64 {
        0i64.wrapping_sub(a)
    }

    open spec fn spec_lt(a: i64, b: i64) -> bool {
        a < b
    }

    open spec fn spec_le(a: i64, b: i64) -> bool {
        a <= b
    }

    fn zero() -> (r: i64) {
        0
    }

    fn one() -> (r: i64) {
        1
    }

    fn from_i8(v: i8) -> (r: i64) {
        v as i64
    }

    fn add(a: i64, b: i64) -> (r: i64) {
        a.wrapping_add(b)
    }

    fn mul(a: i64, b: i64) -> (r: i64) {
        a.wrapping_mul(b)
    }

    fn neg(a: i64) -> (r: i64) {
        0i64.wrapping_sub(a)
    }

    fn lt(a: i64, b: i64) -> (r: bool) {
        a < b
    }

    fn le(a: i64, b: i64) -> (r: bool) {
        a <= b
    }
}

/// The modulus of `i64` wrapping arithmetic.
spec fn word() -> int {
    0x1_0000_0000_0000_0000
}

proof fn lemma_i64_mod(x: i64)
    ensures
        (x as int) % word() == if x >= 0 { x as int } else { x + word() },
{
    if x >= 0 {
        lemma_fundamental_div_mod_converse_mod(x as int, word(), 0, x as int);
    } else {
        lemma_fundamental_div_mod_converse_mod(x as int, word(), -1, x + word());
    }
}

/// Two `i64` values that agree modulo 2^64 are equal.
proof fn lemma_i64_congruent(x: i64, y: i64)
    requires
        (x as int) % word() == (y as int) % word(),
    ensures
        x == y,
{
    lemma_i64_mod(x);
    lemma_i64_mod(y);
}

/// Wrapping addition agrees with addition modulo 2^64.
proof fn lemma_add_wraps(a: i64, b: i64)
    ensures
        (<i64 as Sample>::spec_add(a, b) as int) % word() == (a + b) % word(),
{
    let s = a + b;
    if s > i64::MAX {
        lemma_mod_multiples_vanish(-1, s, word());
    } else if s < i64::MIN {
        lemma_mod_multiples_vanish(1, s, word());
    }
}

/// Wrapping multiplication agrees with multiplication modulo 2^64.
proof fn lemma_mul_wraps(a: i64, b: i64)
    ensures
        (<i64 as Sample>::spec_mul(a, b) as int) % word() == (a * b) % word(),
{
    let x = a * b;
    let c = x % word();
    lemma_mod_twice(x, word());
    if c > i64::MAX {
        lemma_mod_multiples_vanish(-1, c, word());
    }
}

/// Adding the products of two samples with one weight to two running sums
/// gives, in `i64` wrapping arithmetic, the sum's product added to the sums'
/// sum.
pub proof fn lemma_mul_add_distributes(acc_a: i64, acc_b: i64, sa: i64, sb: i64, k: i64)
    ensures
        <i64 as Sample>::spec_add(
            <i64 as Sample>::spec_add(acc_a, acc_b),
            <i64 as Sample>::spec_mul(<i64 as Sample>::spec_add(sa, sb), k),
        ) == <i64 as Sample>::spec_add(
            <i64 as Sample>::spec_add(acc_a, <i64 as Sample>::spec_mul(sa, k)),
            <i64 as Sample>::spec_add(acc_b, <i64 as Sample>::spec_mul(sb, k)),
        ),
{
    let m = word();
    let s = <i64 as Sample>::spec_add(sa, sb);
    let p = <i64 as Sample>::spec_mul(s, k);
    let q = <i64 as Sample>::spec_add(acc_a, acc_b);
    let lhs = <i64 as Sample>::spec_add(q, p);
    let pa = <i64 as Sample>::spec_mul(sa, k);
    let pb = <i64 as Sample>::spec_mul(sb, k);
    let ra = <i64 as Sample>::spec_add(acc_a, pa);
    let rb = <i64 as Sample>::spec_add(acc_b, pb);
    let rhs = <i64 as Sample>::spec_add(ra, rb);
    let total = (acc_a + acc_b) + (sa + sb) * k;
    let (ia, ib, xa, xb, w) = (acc_a as int, acc_b as int, sa as int, sb as int, k as int);
    assert((ia + ib) + (xa + xb) * w == (ia + xa * w) + (ib + xb * w)) by (nonlinear_arith);

    lemma_add_wraps(sa, sb);
    lemma_mul_wraps(s, k);
    lemma_mul_mod_noop(s as int, k as int, m);
    lemma_mul_mod_noop(sa + sb, k as int, m);
    assert((p as int) % m == ((sa + sb) * k) % m);
    lemma_add_wraps(acc_a, acc_b);
    lemma_add_wraps(q, p);
    lemma_add_mod_noop(q as int, p as int, m);
    lemma_add_mod_noop(acc_a + acc_b, (sa + sb) * k, m);
    assert((lhs as int) % m == total % m);

    lemma_mul_wraps(sa, k);
    lemma_mul_wraps(sb, k);
    lemma_add_wraps(acc_a, pa);
    lemma_add_wraps(acc_b, pb);
    lemma_add_mod_noop(acc_a as int, pa as int, m);
    lemma_add_mod_noop(acc_a as int, sa * k, m);
    lemma_add_mod_noop(acc_b as int, pb as int, m);
    lemma_add_mod_noop(acc_b as int, sb * k, m);
    assert((ra as int) % m == (acc_a + sa * k) % m);
    assert((rb as int) % m == (acc_b + sb * k) % m);
    lemma_add_wraps(ra, rb);
    lemma_add_mod_noop(ra as int, rb as int, m);
    lemma_add_mod_noop(acc_a + sa * k, acc_b + sb * k, m);
    assert((rhs as int) % m == total % m);
    lemma_i64_congruent(lhs, rhs);
}

} // verus!
