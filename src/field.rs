use vstd::prelude::*;
use vstd::arithmetic::div_mod::{lemma_add_mod_noop, lemma_mul_mod_noop, lemma_mod_bound};

verus! {

/// Order of the Goldilocks field, 2^64 - 2^32 + 1.
pub const ORDER: u64 = 0xffff_ffff_0000_0001;

/// The field element that an integer stands for.
pub open spec fn fe(x: int) -> int {
    x % (ORDER as int)
}

/// `(a + b) mod p`.
pub fn add_mod(a: u64, b: u64) -> (r: u64)
    ensures
        r as int == fe(a + b),
{
    let s: u128 = (a as u128) + (b as u128);
    (s % (ORDER as u128)) as u64
}

/// `(a * b) mod p`.
pub fn mul_mod(a: u64, b: u64) -> (r: u64)
    ensures
        r as int == fe(a * b),
{
    assert((a as int) * (b as int) <= 0xffff_ffff_ffff_ffff * 0xffff_ffff_ffff_ffff) by (nonlinear_arith)
        requires
            a <= 0xffff_ffff_ffff_ffffu64,
            b <= 0xffff_ffff_ffff_ffffu64,
    ;
    let p: u128 = (a as u128) * (b as u128);
    (p % (ORDER as u128)) as u64
}

/// Reducing a partial sum before adding does not change the field element.
pub proof fn lemma_fe_add(x: int, y: int)
    ensures
        fe(fe(x) + fe(y)) == fe(x + y),
        fe(fe(x) + y) == fe(x + y),
{
    lemma_add_mod_noop(x, y, ORDER as int);
    lemma_add_mod_noop(x % (ORDER as int), y, ORDER as int);
    lemma_mod_bound(x, ORDER as int);
    assert(fe(x) % (ORDER as int) == fe(x)) by {
        vstd::arithmetic::div_mod::lemma_small_mod(fe(x) as nat, ORDER as nat);
    }
}

/// Reducing factors before multiplying does not change the field element.
pub proof fn lemma_fe_mul(x: int, y: int)
    ensures
        fe(fe(x) * y) == fe(x * y),
        fe(x * fe(y)) == fe(x * y),
{
    lemma_mul_mod_noop(x, y, ORDER as int);
    lemma_mul_mod_noop(x % (ORDER as int), y, ORDER as int);
    lemma_mul_mod_noop(x, y % (ORDER as int), ORDER as int);
    lemma_mod_bound(x, ORDER as int);
    lemma_mod_bound(y, ORDER as int);
    vstd::arithmetic::div_mod::lemma_small_mod(fe(x) as nat, ORDER as nat);
    vstd::arithmetic::div_mod::lemma_small_mod(fe(y) as nat, ORDER as nat);
}

} // verus!
