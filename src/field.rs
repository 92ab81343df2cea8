//! Arithmetic in the prime field in which credited values and histogram
//! buckets live.
use vstd::prelude::*;
use vstd::arithmetic::div_mod::{lemma_small_mod, lemma_mod_add_multiples_vanish};

verus! {

/// The field modulus: the largest prime below `2^32`.
pub const PRIME: u64 = 4_294_967_291;

/// A value is a field element when it is reduced modulo [`PRIME`].
pub open spec fn is_field_element(x: u64) -> bool {
    x < PRIME
}

/// The field element that stands for an integer.
pub open spec fn reduce(x: int) -> int {
    x % (PRIME as int)
}

/// Field addition.
pub fn field_add(a: u64, b: u64) -> (r: u64)
    requires
        is_field_element(a),
        is_field_element(b),
    ensures
        r as int == reduce(a + b),
        is_field_element(r),
{
    (a + b) % PRIME
}

/// Field subtraction.
pub fn field_sub(a: u64, b: u64) -> (r: u64)
    requires
        is_field_element(a),
        is_field_element(b),
    ensures
        r as int == reduce(a - b),
        is_field_element(r),
{
    proof {
        lemma_mod_add_multiples_vanish(a - b, PRIME as int);
    }
    (a + (PRIME - b)) % PRIME
}

/// Field multiplication.
pub fn field_mul(a: u64, b: u64) -> (r: u64)
    requires
        is_field_element(a),
        is_field_element(b),
    ensures
        r as int == reduce(a * b),
        is_field_element(r),
{
    assert(a * b <= (PRIME - 1) * (PRIME - 1)) by (nonlinear_arith)
        requires
            a < PRIME,
            b < PRIME,
    ;
    (a * b) % PRIME
}

/// A field element is its own reduction.
pub proof fn lemma_reduce_field_element(x: u64)
    requires
        is_field_element(x),
    ensures
        reduce(x as int) == x,
{
    lemma_small_mod(x as nat, PRIME as nat);
}

} // verus!
