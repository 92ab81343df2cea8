//! Binomial noise: the sum, per histogram bucket, of `num_bernoulli` coin
//! flips drawn from shared randomness, added to the histogram in the output
//! width.
use vstd::prelude::*;
use vstd::arithmetic::div_mod::lemma_mod_bound;
use crate::bucket::{bit_width, bit_width_of, two_pow, lemma_bit_width_bounds, lemma_two_pow_monotone};
use crate::prss::{InstrumentedIndexedSharedRandomness, seed_bytes, stream_word, INDEXED_DOMAIN};

verus! {

/// The widest output value, in bits.
pub const MAX_OUTPUT_BITS: u32 = 63;

/// Why noise could not be added to a histogram.
#[derive(Debug, Clone, Copy, PartialEq, Eq, Structural)]
pub enum NoiseError {
    /// The noise vector and the histogram differ in length.
    LengthMismatch,
    /// A value does not fit in the output width.
    ValueTooWide,
}

/// `floor(log2(n))` is below `output_bits`, so that a sum of `n` bits always
/// fits in the output width. `n` must be positive.
pub open spec fn noise_fits(num_bernoulli: nat, output_bits: nat) -> bool {
    1 <= num_bernoulli && bit_width(num_bernoulli) <= output_bits
}

/// The number of the first `n` draws that set their bit for bucket `b`.
pub open spec fn count_set(draws: Seq<Vec<bool>>, b: int, n: int) -> nat
    decreases n,
{
    if n <= 0 {
        0
    } else {
        count_set(draws, b, n - 1) + if draws[n - 1]@[b] {
            1nat
        } else {
            0nat
        }
    }
}

/// Every draw holds one bit per bucket.
pub open spec fn draws_shaped(draws: Seq<Vec<bool>>, num_buckets: nat) -> bool {
    forall|i: int| 0 <= i < draws.len() ==> (#[trigger] draws[i])@.len() == num_buckets
}

/// The modulus of values of `output_bits` bits.
pub open spec fn output_modulus(output_bits: nat) -> nat {
    two_pow(output_bits)
}

/// Tells whether a sum of `num_bernoulli` coin flips fits in `output_bits`
/// bits: `num_bernoulli` is positive and `floor(log2(num_bernoulli))` is
/// below `output_bits`.
pub fn noise_fits_width(num_bernoulli: u32, output_bits: u32) -> (r: bool)
    ensures
        r == noise_fits(num_bernoulli as nat, output_bits as nat),
{
    num_bernoulli >= 1 && bit_width_of(num_bernoulli) <= output_bits
}

proof fn lemma_count_set_bound(draws: Seq<Vec<bool>>, b: int, n: int)
    requires
        n >= 0,
    ensures
        count_set(draws, b, n) <= n,
    decreases n,
{
    if n > 0 {
        lemma_count_set_bound(draws, b, n - 1);
    }
}

proof fn lemma_two_pow_63()
    ensures
        two_pow(63) == 0x8000_0000_0000_0000,
{
    reveal_with_fuel(two_pow, 64);
}

/// The per-bucket noise: bucket `b` holds how many draws set their bit for
/// `b`.
pub fn sum_bernoulli_draws(draws: &Vec<Vec<bool>>, num_buckets: usize) -> (r: Vec<u64>)
    requires
        draws_shaped(draws@, num_buckets as nat),
        draws@.len() <= u32::MAX,
    ensures
        r@.len() == num_buckets,
        forall|b: int| 0 <= b < num_buckets ==> #[trigger] r@[b] == count_set(draws@, b, draws@.len() as int),
{
    let mut sums: Vec<u64> = Vec::new();
    let mut b: usize = 0;
    while b < num_buckets
        invariant
            b <= num_buckets,
            sums@.len() == b,
            forall|m: int| 0 <= m < b ==> #[trigger] sums@[m] == 0,
        decreases num_buckets - b,
    {
        sums.push(0);
        b = b + 1;
    }
    let mut i: usize = 0;
    while i < draws.len()
        invariant
            0 <= i <= draws@.len() <= u32::MAX,
            draws_shaped(draws@, num_buckets as nat),
            sums@.len() == num_buckets,
            forall|m: int| 0 <= m < num_buckets ==> #[trigger] sums@[m] == count_set(draws@, m, i as int),
        decreases draws@.len() - i,
    {
        let draw = &draws[i];
        assert(draw@.len() == num_buckets);
        let mut b: usize = 0;
        while b < num_buckets
            invariant
                b <= num_buckets,
                i < draws@.len() <= u32::MAX,
                draw@ == draws@[i as int]@,
                draw@.len() == num_buckets,
                sums@.len() == num_buckets,
                forall|m: int| 0 <= m < b ==> #[trigger] sums@[m] == count_set(draws@, m, i + 1),
                forall|m: int| b <= m < num_buckets ==> #[trigger] sums@[m] == count_set(draws@, m, i as int),
            decreases num_buckets - b,
        {
            if draw[b] {
                proof {
                    lemma_count_set_bound(draws@, b as int, i as int);
                }
                let v = sums[b] + 1;
                sums.set(b, v);
            }
            b = b + 1;
        }
        i = i + 1;
    }
    sums
}

/// Coin flip `record` of bucket `bucket` under the left key `left_key`: the
/// low bit of the value at position `bucket` of the record's left stream.
pub open spec fn coin_flip(left_key: u64, record: int, bucket: int) -> bool {
    stream_word(seed_bytes(left_key, record as u64, INDEXED_DOMAIN), bucket as u64) % 2 == 1
}

/// The number of the first `n` coin flips of bucket `bucket` that came up.
pub open spec fn flip_count(left_key: u64, bucket: int, n: int) -> nat
    decreases n,
{
    if n <= 0 {
        0
    } else {
        flip_count(left_key, bucket, n - 1) + if coin_flip(left_key, n - 1, bucket) {
            1nat
        } else {
            0nat
        }
    }
}

/// Every value is below `2^output_bits`.
pub open spec fn fits_width(values: Seq<u64>, output_bits: nat) -> bool {
    forall|k: int| 0 <= k < values.len() ==> (#[trigger] values[k] as nat) < output_modulus(output_bits)
}

proof fn lemma_flip_count_is_count_set(draws: Seq<Vec<bool>>, left_key: u64, b: int, n: int)
    requires
        0 <= n <= draws.len(),
        forall|i: int| 0 <= i < n ==> (#[trigger] draws[i])@[b] == coin_flip(left_key, i, b),
    ensures
        count_set(draws, b, n) == flip_count(left_key, b, n),
    decreases n,
{
    if n > 0 {
        lemma_flip_count_is_count_set(draws, left_key, b, n - 1);
    }
}

proof fn lemma_flip_count_bound(left_key: u64, b: int, n: int)
    requires
        n >= 0,
    ensures
        flip_count(left_key, b, n) <= n,
    decreases n,
{
    if n > 0 {
        lemma_flip_count_bound(left_key, b, n - 1);
    }
}

/// Draws `num_bernoulli` coin flips for each of `num_buckets` buckets: flip
/// `i` of bucket `b` is the low bit of the value shared with the left
/// neighbour in chunk `b` of record `i`.
pub fn draw_bernoulli_bits(prss: &InstrumentedIndexedSharedRandomness, num_bernoulli: u32, num_buckets: usize) -> (r: Vec<Vec<bool>>)
    ensures
        r@.len() == num_bernoulli,
        draws_shaped(r@, num_buckets as nat),
        forall|i: int, b: int| 0 <= i < num_bernoulli && 0 <= b < num_buckets ==>
            #[trigger] r@[i]@[b] == coin_flip(prss.keys().0, i, b),
{
    let mut draws: Vec<Vec<bool>> = Vec::new();
    let mut i: u32 = 0;
    while i < num_bernoulli
        invariant
            i <= num_bernoulli,
            draws@.len() == i,
            draws_shaped(draws@, num_buckets as nat),
            forall|j: int, b: int| 0 <= j < i && 0 <= b < num_buckets ==>
                #[trigger] draws@[j]@[b] == coin_flip(prss.keys().0, j, b),
        decreases num_bernoulli - i,
    {
        let mut chunks = prss.generate_chunks_iter(i as u64);
        let mut bits: Vec<bool> = Vec::new();
        let mut b: usize = 0;
        while b < num_buckets
            invariant
                b <= num_buckets,
                bits@.len() == b,
                chunks.left_seed() == seed_bytes(prss.keys().0, i as u64, INDEXED_DOMAIN),
                chunks.position() == b,
                forall|m: int| 0 <= m < b ==> #[trigger] bits@[m] == coin_flip(prss.keys().0, i as int, m),
            decreases num_buckets - b,
        {
            proof {
                vstd::arithmetic::div_mod::lemma_small_mod((b + 1) as nat, 0x1_0000_0000_0000_0000nat);
            }
            let (left, _right) = chunks.next().unwrap();
            bits.push(left % 2 == 1);
            b = b + 1;
        }
        proof {
            assert forall|j: int, m: int| 0 <= j < i + 1 && 0 <= m < num_buckets implies
                #[trigger] draws@.push(bits)[j]@[m] == coin_flip(prss.keys().0, j, m) by {
                if j < i {
                    assert(draws@.push(bits)[j] == draws@[j]);
                }
            }
        }
        draws.push(bits);
        i = i + 1;
    }
    draws
}

/// Draws Binomial noise for `num_buckets` buckets: bucket `b` holds how many
/// of its `num_bernoulli` coin flips came up, which fits in `output_bits`
/// bits.
pub fn gen_binomial_noise(
    prss: &InstrumentedIndexedSharedRandomness,
    num_bernoulli: u32,
    num_buckets: usize,
    output_bits: u32,
) -> (r: Vec<u64>)
    requires
        noise_fits(num_bernoulli as nat, output_bits as nat),
    ensures
        r@.len() == num_buckets,
        forall|b: int| 0 <= b < num_buckets ==> #[trigger] r@[b] == flip_count(prss.keys().0, b, num_bernoulli as int),
        forall|b: int| 0 <= b < num_buckets ==> #[trigger] r@[b] <= num_bernoulli,
        fits_width(r@, output_bits as nat),
{
    let draws = draw_bernoulli_bits(prss, num_bernoulli, num_buckets);
    let noise = sum_bernoulli_draws(&draws, num_buckets);
    proof {
        lemma_bit_width_bounds(num_bernoulli as nat);
        lemma_two_pow_monotone(bit_width(num_bernoulli as nat), output_bits as nat);
        assert forall|b: int| 0 <= b < num_buckets implies #[trigger] noise@[b] == flip_count(prss.keys().0, b, num_bernoulli as int) by {
            assert forall|i: int| 0 <= i < num_bernoulli implies (#[trigger] draws@[i])@[b] == coin_flip(prss.keys().0, i, b) by {
                assert(draws@[i]@[b] == coin_flip(prss.keys().0, i, b));
            }
            lemma_flip_count_is_count_set(draws@, prss.keys().0, b, num_bernoulli as int);
        }
        assert forall|b: int| 0 <= b < num_buckets implies #[trigger] noise@[b] <= num_bernoulli by {
            lemma_flip_count_bound(prss.keys().0, b, num_bernoulli as int);
        }
    }
    noise
}

/// Reduces a value to `output_bits` bits.
fn truncate(x: u64, output_bits: u32) -> (r: u64)
    requires
        output_bits <= MAX_OUTPUT_BITS,
    ensures
        r as int == x as int % output_modulus(output_bits as nat) as int,
{
    proof {
        lemma_two_pow_63();
        lemma_two_pow_monotone(output_bits as nat, 63);
        lemma_shift_is_two_pow(output_bits);
        crate::bucket::lemma_two_pow_positive(output_bits as nat);
    }
    let m: u64 = 1u64 << output_bits;
    x % m
}

proof fn lemma_shift_is_two_pow(bits: u32)
    requires
        bits <= 63,
    ensures
        (1u64 << bits) as nat == two_pow(bits as nat),
    decreases bits,
{
    if bits > 0 {
        lemma_shift_is_two_pow((bits - 1) as u32);
        lemma_two_pow_63();
        lemma_two_pow_monotone(bits as nat, 63);
        assert((1u64 << bits) == 2 * (1u64 << ((bits - 1) as u32))) by (bit_vector)
            requires
                0 < bits <= 63,
        ;
    } else {
        assert((1u64 << 0u32) == 1) by (bit_vector);
    }
}

/// Tells whether every value fits in `output_bits` bits.
pub fn fits_output_width(values: &Vec<u64>, output_bits: u32) -> (r: bool)
    requires
        output_bits <= MAX_OUTPUT_BITS,
    ensures
        r == fits_width(values@, output_bits as nat),
{
    proof {
        crate::bucket::lemma_two_pow_positive(output_bits as nat);
    }
    let mut k: usize = 0;
    while k < values.len()
        invariant
            k <= values@.len(),
            output_bits <= MAX_OUTPUT_BITS,
            output_modulus(output_bits as nat) >= 1,
            forall|j: int| 0 <= j < k ==> (#[trigger] values@[j] as nat) < output_modulus(output_bits as nat),
        decreases values@.len() - k,
    {
        if truncate(values[k], output_bits) != values[k] {
            proof {
                if (values@[k as int] as nat) < output_modulus(output_bits as nat) {
                    vstd::arithmetic::div_mod::lemma_small_mod(values@[k as int] as nat, output_modulus(output_bits as nat));
                }
            }
            return false;
        }
        proof {
            lemma_mod_bound(values@[k as int] as int, output_modulus(output_bits as nat) as int);
        }
        k = k + 1;
    }
    true
}

/// Adds the noise to the histogram, bucket by bucket, in `output_bits` bits:
/// bucket `k` of the result is `(histogram[k] + noise[k]) mod 2^output_bits`.
/// Fails when the two differ in length, or when a value of either does not
/// fit in `output_bits` bits.
pub fn add_noise(histogram: &Vec<u64>, noise: &Vec<u64>, output_bits: u32) -> (r: Result<Vec<u64>, NoiseError>)
    requires
        output_bits <= MAX_OUTPUT_BITS,
    ensures
        r is Err <==> histogram@.len() != noise@.len()
            || !(fits_width(histogram@, output_bits as nat) && fits_width(noise@, output_bits as nat)),
        r == Err::<Vec<u64>, NoiseError>(NoiseError::LengthMismatch) <==> histogram@.len() != noise@.len(),
        r == Err::<Vec<u64>, NoiseError>(NoiseError::ValueTooWide) <==> histogram@.len() == noise@.len()
            && !(fits_width(histogram@, output_bits as nat) && fits_width(noise@, output_bits as nat)),
        r matches Ok(v) ==> v@.len() == histogram@.len() && fits_width(v@, output_bits as nat) && forall|k: int| 0 <= k < v@.len() ==>
            #[trigger] v@[k] as int == (histogram@[k] + noise@[k]) % output_modulus(output_bits as nat) as int,
{
    if histogram.len() != noise.len() {
        return Err(NoiseError::LengthMismatch);
    }
    if !fits_output_width(histogram, output_bits) || !fits_output_width(noise, output_bits) {
        return Err(NoiseError::ValueTooWide);
    }
    let ghost m = output_modulus(output_bits as nat) as int;
    proof {
        lemma_two_pow_63();
        lemma_two_pow_monotone(output_bits as nat, 63);
        crate::bucket::lemma_two_pow_positive(output_bits as nat);
    }
    let mut out: Vec<u64> = Vec::new();
    let mut k: usize = 0;
    while k < histogram.len()
        invariant
            k <= histogram@.len() == noise@.len(),
            output_bits <= MAX_OUTPUT_BITS,
            m == output_modulus(output_bits as nat) as int,
            0 < m <= 0x8000_0000_0000_0000,
            fits_width(histogram@, output_bits as nat),
            fits_width(noise@, output_bits as nat),
            out@.len() == k,
            forall|j: int| 0 <= j < k ==> #[trigger] out@[j] as int == (histogram@[j] + noise@[j]) % m,
            forall|j: int| 0 <= j < k ==> (#[trigger] out@[j] as nat) < m,
        decreases histogram@.len() - k,
    {
        assert((histogram@[k as int] as nat) < m && (noise@[k as int] as nat) < m);
        let s = truncate(histogram[k] + noise[k], output_bits);
        proof {
            lemma_mod_bound(histogram@[k as int] + noise@[k as int], m);
        }
        out.push(s);
        k = k + 1;
    }
    Ok(out)
}

/// Draws Binomial noise of `num_bernoulli` coin flips per bucket and adds it
/// to the histogram in `output_bits` bits: bucket `k` becomes
/// `(histogram[k] + n_k) mod 2^output_bits`, where `n_k` is how many of the
/// coin flips of bucket `k` came up. Fails when a histogram value does not
/// fit in `output_bits` bits.
pub fn apply_dp_noise(
    prss: &InstrumentedIndexedSharedRandomness,
    histogram: &Vec<u64>,
    num_bernoulli: u32,
    output_bits: u32,
) -> (r: Result<Vec<u64>, NoiseError>)
    requires
        noise_fits(num_bernoulli as nat, output_bits as nat),
        output_bits <= MAX_OUTPUT_BITS,
    ensures
        r is Err <==> !fits_width(histogram@, output_bits as nat),
        r is Err ==> r == Err::<Vec<u64>, NoiseError>(NoiseError::ValueTooWide),
        r matches Ok(v) ==> noised(histogram@, v@, prss.keys().0, num_bernoulli, output_bits as nat),
{
    let noise = gen_binomial_noise(prss, num_bernoulli, histogram.len(), output_bits);
    add_noise(histogram, &noise, output_bits)
}

/// `out` is `histogram` with the coin flips of `left_key` added, bucket by
/// bucket, in `output_bits` bits.
pub open spec fn noised(histogram: Seq<u64>, out: Seq<u64>, left_key: u64, num_bernoulli: u32, output_bits: nat) -> bool {
    &&& out.len() == histogram.len()
    &&& fits_width(out, output_bits)
    &&& forall|k: int| 0 <= k < out.len() ==> #[trigger] out[k] as int
        == (histogram[k] + flip_count(left_key, k, num_bernoulli as int)) % output_modulus(output_bits) as int
}

/// The output of the histogram stage. Under `testing_with_no_dp` the histogram
/// comes back as it is; otherwise Binomial noise of `num_bernoulli` coin flips
/// per bucket is added, in `output_bits` bits. Fails when a histogram value
/// does not fit in `output_bits` bits.
pub fn dp_for_histogram(
    prss: &InstrumentedIndexedSharedRandomness,
    histogram: &Vec<u64>,
    testing_with_no_dp: bool,
    num_bernoulli: u32,
    output_bits: u32,
) -> (r: Result<Vec<u64>, NoiseError>)
    requires
        output_bits <= MAX_OUTPUT_BITS,
        !testing_with_no_dp ==> noise_fits(num_bernoulli as nat, output_bits as nat),
    ensures
        r is Err <==> !fits_width(histogram@, output_bits as nat),
        r is Err ==> r == Err::<Vec<u64>, NoiseError>(NoiseError::ValueTooWide),
        testing_with_no_dp ==> (r matches Ok(v) ==> v@ == histogram@),
        !testing_with_no_dp ==> (r matches Ok(v) ==> noised(histogram@, v@, prss.keys().0, num_bernoulli, output_bits as nat)),
{
    if testing_with_no_dp {
        if fits_output_width(histogram, output_bits) {
            Ok(histogram.clone())
        } else {
            Err(NoiseError::ValueTooWide)
        }
    } else {
        apply_dp_noise(prss, histogram, num_bernoulli, output_bits)
    }
}

} // verus!
