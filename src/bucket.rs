//! Oblivious bucket addressing: a bit-decomposed breakdown key and a credited
//! value become a vector that holds the value at the key's index and zero
//! elsewhere. The vector is built by multiplications with the key's bits, with
//! no branch and no index that depends on the key.
use vstd::prelude::*;
use crate::field::{PRIME, is_field_element, reduce, field_mul, field_sub, lemma_reduce_field_element};

verus! {

/// The integer whose binary digits, least significant first, are `bits[i..]`.
pub open spec fn key_from(bits: Seq<u64>, i: int) -> int
    decreases bits.len() - i,
{
    if i < 0 || i >= bits.len() {
        0
    } else {
        bits[i] + 2 * key_from(bits, i + 1)
    }
}

/// The breakdown key that a bit decomposition (least significant bit first)
/// stands for.
pub open spec fn key_of(bits: Seq<u64>) -> int {
    key_from(bits, 0)
}

/// Every entry is a bit.
pub open spec fn all_bits(bits: Seq<u64>) -> bool {
    forall|i: int| 0 <= i < bits.len() ==> #[trigger] bits[i] < 2
}

/// `2^n`.
pub open spec fn two_pow(n: nat) -> nat
    decreases n,
{
    if n == 0 {
        1
    } else {
        2 * two_pow((n - 1) as nat)
    }
}

/// The number of binary digits of `n`.
pub open spec fn bit_width(n: nat) -> nat
    decreases n,
{
    if n == 0 {
        0
    } else {
        1 + bit_width(n / 2)
    }
}

/// The number of bits in a breakdown key below `max_breakdown_key`, that is
/// `ceil(log2(max_breakdown_key))`.
pub open spec fn key_bits_for(max_breakdown_key: nat) -> nat {
    if max_breakdown_key == 0 {
        0
    } else {
        bit_width((max_breakdown_key - 1) as nat)
    }
}

/// The one-hot vector of length `len` with `value` at index `key`.
pub open spec fn one_hot(key: int, value: int, len: nat) -> Seq<int> {
    Seq::new(len, |k: int| if k == key { value } else { 0 })
}

/// A breakdown key is never negative.
pub proof fn lemma_key_nonnegative(bits: Seq<u64>, i: int)
    ensures
        key_from(bits, i) >= 0,
    decreases bits.len() - i,
{
    if 0 <= i < bits.len() {
        lemma_key_nonnegative(bits, i + 1);
    }
}

/// `n` is below `2^bit_width(n)`, and for positive `n` at most half of it.
pub proof fn lemma_bit_width_bounds(n: nat)
    ensures
        n < two_pow(bit_width(n)),
        n > 0 ==> two_pow(bit_width(n)) <= 2 * n,
    decreases n,
{
    if n > 0 {
        lemma_bit_width_bounds(n / 2);
    }
}

/// Computes `ceil(log2(max_breakdown_key))`, the number of bits of a
/// breakdown key.
pub fn key_bits(max_breakdown_key: u32) -> (r: u32)
    ensures
        r as nat == key_bits_for(max_breakdown_key as nat),
        r <= 32,
{
    if max_breakdown_key == 0 {
        0
    } else {
        bit_width_of(max_breakdown_key - 1)
    }
}

/// Computes the number of binary digits of `n`.
pub fn bit_width_of(n: u32) -> (r: u32)
    ensures
        r as nat == bit_width(n as nat),
        r <= 32,
{
    let mut rest: u32 = n;
    let mut w: u32 = 0;
    proof {
        lemma_two_pow_32();
        lemma_bit_width_below(n as nat, 32);
    }
    while rest > 0
        invariant
            w + bit_width(rest as nat) == bit_width(n as nat),
            bit_width(n as nat) <= 32,
        decreases rest,
    {
        rest = rest / 2;
        w = w + 1;
    }
    w
}

proof fn lemma_bit_width_below(n: nat, k: nat)
    requires
        n < two_pow(k),
    ensures
        bit_width(n) <= k,
    decreases k,
{
    if k > 0 && n > 0 {
        lemma_bit_width_below(n / 2, (k - 1) as nat);
    }
}

/// `2^n` is positive.
pub proof fn lemma_two_pow_positive(n: nat)
    ensures
        two_pow(n) >= 1,
    decreases n,
{
    if n > 0 {
        lemma_two_pow_positive((n - 1) as nat);
    }
}

/// `2^n` grows with `n`.
pub proof fn lemma_two_pow_monotone(a: nat, b: nat)
    requires
        a <= b,
    ensures
        two_pow(a) <= two_pow(b),
    decreases b,
{
    if b > a {
        lemma_two_pow_monotone(a, (b - 1) as nat);
    }
}

proof fn lemma_two_pow_32()
    ensures
        two_pow(32) == 0x1_0000_0000,
{
    reveal_with_fuel(two_pow, 33);
}

/// Scales the one-hot vector of the breakdown key `bits` by `value`: entry `k`
/// is `value` when the key is `k` and zero otherwise. A key at or above
/// `max_breakdown_key` selects no entry.
pub fn move_single_value_to_bucket(bits: &Vec<u64>, value: u64, max_breakdown_key: u32) -> (r: Vec<u64>)
    requires
        all_bits(bits@),
        is_field_element(value),
        bits.len() == key_bits_for(max_breakdown_key as nat),
    ensures
        r@.len() == max_breakdown_key,
        forall|k: int| 0 <= k < r@.len() ==> #[trigger] r@[k] as int == one_hot(key_of(bits@), value as int, max_breakdown_key as nat)[k],
{
    let w = bits.len();
    proof {
        if max_breakdown_key > 0 {
            lemma_bit_width_bounds((max_breakdown_key - 1) as nat);
        }
        assert(two_pow(0) == 1);
    }
    let mut row: Vec<u64> = Vec::new();
    row.push(value);
    let mut i: usize = w;
    while i > 0
        invariant
            i <= w == bits.len(),
            all_bits(bits@),
            is_field_element(value),
            bits.len() == key_bits_for(max_breakdown_key as nat),
            two_pow(w as nat) <= 2 * max_breakdown_key + 1,
            max_breakdown_key == 0 ==> w == 0,
            row@.len() == two_pow((w - i) as nat),
            forall|j: int| 0 <= j < row@.len() ==> is_field_element(#[trigger] row@[j]),
            forall|j: int| 0 <= j < row@.len() ==> #[trigger] row@[j] == if j == key_from(bits@, i as int) { value } else { 0 },
        decreases i,
    {
        let b = bits[i - 1];
        proof {
            assert(bits@[i - 1] < 2);
            lemma_two_pow_monotone((w - i + 1) as nat, w as nat);
        }
        let mut next: Vec<u64> = Vec::new();
        let mut j: usize = 0;
        while j < row.len()
            invariant
                0 <= j <= row@.len(),
                i > 0,
                i <= w == bits.len(),
                b == bits@[i - 1],
                b < 2,
                is_field_element(value),
                2 * row@.len() <= 2 * (max_breakdown_key as int),
                next@.len() == 2 * j,
                forall|m: int| 0 <= m < row@.len() ==> is_field_element(#[trigger] row@[m]),
                forall|m: int| 0 <= m < row@.len() ==> #[trigger] row@[m] == if m == key_from(bits@, i as int) { value } else { 0 },
                forall|m: int| 0 <= m < next@.len() ==> is_field_element(#[trigger] next@[m]),
                forall|m: int| 0 <= m < next@.len() ==> #[trigger] next@[m] == if m == key_from(bits@, i - 1) { value } else { 0 },
            decreases row@.len() - j,
        {
            let high = field_mul(row[j], b);
            let low = field_sub(row[j], high);
            proof {
                lemma_reduce_field_element(row@[j as int]);
                lemma_reduce_field_element(0);
                assert(key_from(bits@, i - 1) == b + 2 * key_from(bits@, i as int));
                if b == 0 {
                    assert(row@[j as int] * b == 0);
                } else {
                    assert(row@[j as int] * b == row@[j as int]);
                }
            }
            next.push(low);
            next.push(high);
            j = j + 1;
        }
        row = next;
        i = i - 1;
    }
    let mut r: Vec<u64> = Vec::new();
    let mut k: usize = 0;
    let len = max_breakdown_key as usize;
    proof {
        if max_breakdown_key > 0 {
            lemma_bit_width_bounds((max_breakdown_key - 1) as nat);
        }
    }
    while k < len
        invariant
            k <= len == max_breakdown_key,
            len <= row@.len(),
            r@.len() == k,
            forall|j: int| 0 <= j < row@.len() ==> #[trigger] row@[j] == if j == key_from(bits@, 0) { value } else { 0 },
            forall|m: int| 0 <= m < k ==> #[trigger] r@[m] as int == one_hot(key_of(bits@), value as int, max_breakdown_key as nat)[m],
        decreases len - k,
    {
        r.push(row[k]);
        k = k + 1;
    }
    r
}

} // verus!
