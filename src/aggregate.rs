//! The aggregation reducer: every record's bucket vector is added, entry by
//! entry, into one histogram.
use vstd::prelude::*;
use vstd::arithmetic::div_mod::{lemma_add_mod_noop, lemma_add_mod_noop_right, lemma_mod_twice};
use crate::field::{PRIME, is_field_element, reduce, field_add, lemma_reduce_field_element};
use crate::bucket::{key_of, lemma_key_nonnegative, all_bits, key_bits_for, one_hot, move_single_value_to_bucket};

verus! {

/// The plaintext sum of the credits of the first `n` records whose breakdown
/// key is `k`.
pub open spec fn credit_total(keys: Seq<Vec<u64>>, credits: Seq<u64>, k: int, n: int) -> int
    decreases n,
{
    if n <= 0 {
        0
    } else {
        credit_total(keys, credits, k, n - 1) + if key_of(keys[n - 1]@) == k {
            credits[n - 1] as int
        } else {
            0
        }
    }
}

/// The histogram of the records: bucket `k` holds the field sum of the
/// credits of the records whose breakdown key is `k`.
pub open spec fn histogram(keys: Seq<Vec<u64>>, credits: Seq<u64>, max_breakdown_key: nat) -> Seq<int> {
    Seq::new(max_breakdown_key, |k: int| reduce(credit_total(keys, credits, k, credits.len() as int)))
}

/// The sum of a sequence of integers.
pub open spec fn seq_sum(s: Seq<int>) -> int
    decreases s.len(),
{
    if s.len() == 0 {
        0
    } else {
        seq_sum(s.drop_last()) + s.last()
    }
}

/// The sum of the first `n` credits.
pub open spec fn credit_sum(credits: Seq<u64>, n: int) -> int
    decreases n,
{
    if n <= 0 {
        0
    } else {
        credit_sum(credits, n - 1) + credits[n - 1]
    }
}

/// The records are well formed: one credit per key, each key a bit
/// decomposition of the width that `max_breakdown_key` asks for, each credit a
/// field element.
pub open spec fn valid_records(keys: Seq<Vec<u64>>, credits: Seq<u64>, max_breakdown_key: u32) -> bool {
    &&& keys.len() == credits.len()
    &&& forall|r: int| 0 <= r < keys.len() ==> all_bits(#[trigger] keys[r]@)
    &&& forall|r: int| 0 <= r < keys.len() ==> #[trigger] keys[r]@.len() == key_bits_for(max_breakdown_key as nat)
    &&& forall|r: int| 0 <= r < credits.len() ==> is_field_element(#[trigger] credits[r])
}

/// Adds `row` into `acc`, entry by entry, in the field.
pub fn add_bucket_vector(acc: &mut Vec<u64>, row: &Vec<u64>)
    requires
        old(acc)@.len() == row@.len(),
        forall|k: int| 0 <= k < row@.len() ==> is_field_element(#[trigger] old(acc)@[k]),
        forall|k: int| 0 <= k < row@.len() ==> is_field_element(#[trigger] row@[k]),
    ensures
        final(acc)@.len() == old(acc)@.len(),
        forall|k: int| 0 <= k < row@.len() ==> #[trigger] final(acc)@[k] as int == reduce(old(acc)@[k] + row@[k]),
        forall|k: int| 0 <= k < row@.len() ==> is_field_element(#[trigger] final(acc)@[k]),
{
    let mut i: usize = 0;
    while i < row.len()
        invariant
            0 <= i <= row@.len(),
            acc@.len() == row@.len(),
            old(acc)@.len() == row@.len(),
            forall|k: int| 0 <= k < row@.len() ==> is_field_element(#[trigger] old(acc)@[k]),
            forall|k: int| 0 <= k < row@.len() ==> is_field_element(#[trigger] row@[k]),
            forall|k: int| i <= k < row@.len() ==> #[trigger] acc@[k] == old(acc)@[k],
            forall|k: int| 0 <= k < i ==> #[trigger] acc@[k] as int == reduce(old(acc)@[k] + row@[k]),
            forall|k: int| 0 <= k < row@.len() ==> is_field_element(#[trigger] acc@[k]),
        decreases row@.len() - i,
    {
        let v = field_add(acc[i], row[i]);
        acc.set(i, v);
        i = i + 1;
    }
}

/// Sums the credited values into a histogram indexed by breakdown key: bucket
/// `k` holds the field sum of the credits of the records whose key is `k`.
/// A key at or above `max_breakdown_key` credits no bucket.
pub fn simple_aggregate_credit(breakdown_keys: &Vec<Vec<u64>>, capped_credits: &Vec<u64>, max_breakdown_key: u32) -> (r: Vec<u64>)
    requires
        valid_records(breakdown_keys@, capped_credits@, max_breakdown_key),
    ensures
        r@.len() == max_breakdown_key,
        forall|k: int| 0 <= k < r@.len() ==> #[trigger] r@[k] as int == histogram(breakdown_keys@, capped_credits@, max_breakdown_key as nat)[k],
{
    let len = max_breakdown_key as usize;
    let mut acc: Vec<u64> = Vec::new();
    let mut k: usize = 0;
    while k < len
        invariant
            k <= len == max_breakdown_key,
            acc@.len() == k,
            forall|m: int| 0 <= m < k ==> #[trigger] acc@[m] == 0,
        decreases len - k,
    {
        acc.push(0);
        k = k + 1;
    }
    let n = capped_credits.len();
    let mut i: usize = 0;
    while i < n
        invariant
            0 <= i <= n == capped_credits@.len(),
            len == max_breakdown_key,
            valid_records(breakdown_keys@, capped_credits@, max_breakdown_key),
            acc@.len() == len,
            forall|m: int| 0 <= m < len ==> is_field_element(#[trigger] acc@[m]),
            forall|m: int| 0 <= m < len ==> #[trigger] acc@[m] as int == reduce(credit_total(breakdown_keys@, capped_credits@, m, i as int)),
        decreases n - i,
    {
        let row = move_single_value_to_bucket(&breakdown_keys[i], capped_credits[i], max_breakdown_key);
        proof {
            assert(all_bits(breakdown_keys@[i as int]@));
            assert(is_field_element(capped_credits@[i as int]));
            assert forall|m: int| 0 <= m < len implies is_field_element(#[trigger] row@[m]) by {
                assert(row@[m] as int == one_hot(key_of(breakdown_keys@[i as int]@), capped_credits@[i as int] as int, max_breakdown_key as nat)[m]);
            }
        }
        let ghost before = acc@;
        add_bucket_vector(&mut acc, &row);
        proof {
            assert forall|m: int| 0 <= m < len implies #[trigger] acc@[m] as int == reduce(credit_total(breakdown_keys@, capped_credits@, m, i + 1)) by {
                let prev = credit_total(breakdown_keys@, capped_credits@, m, i as int);
                assert(row@[m] as int == one_hot(key_of(breakdown_keys@[i as int]@), capped_credits@[i as int] as int, max_breakdown_key as nat)[m]);
                lemma_add_mod_noop(prev, row@[m] as int, PRIME as int);
                lemma_reduce_field_element(row@[m]);
                lemma_reduce_field_element(before[m]);
                assert(reduce(reduce(prev)) == reduce(prev)) by {
                    lemma_reduce_field_element(before[m]);
                }
            }
        }
        i = i + 1;
    }
    acc
}

/// Aggregates the credited values of a batch of records into a histogram of
/// `max_breakdown_key` buckets.
pub fn aggregate_credit(breakdown_keys: &Vec<Vec<u64>>, capped_credits: &Vec<u64>, max_breakdown_key: u32) -> (r: Vec<u64>)
    requires
        valid_records(breakdown_keys@, capped_credits@, max_breakdown_key),
    ensures
        r@.len() == max_breakdown_key,
        forall|k: int| 0 <= k < r@.len() ==> #[trigger] r@[k] as int == histogram(breakdown_keys@, capped_credits@, max_breakdown_key as nat)[k],
{
    simple_aggregate_credit(breakdown_keys, capped_credits, max_breakdown_key)
}

/// The credits of the first `n` records, summed over the buckets below `m`.
spec fn bucket_sum(keys: Seq<Vec<u64>>, credits: Seq<u64>, m: int, n: int) -> int
    decreases m,
{
    if m <= 0 {
        0
    } else {
        bucket_sum(keys, credits, m - 1, n) + credit_total(keys, credits, m - 1, n)
    }
}

proof fn lemma_bucket_sum_step(keys: Seq<Vec<u64>>, credits: Seq<u64>, m: int, n: int)
    requires
        0 < n,
    ensures
        bucket_sum(keys, credits, m, n) == bucket_sum(keys, credits, m, n - 1) + if 0 <= key_of(keys[n - 1]@) < m {
            credits[n - 1] as int
        } else {
            0
        },
    decreases m,
{
    if m > 0 {
        lemma_bucket_sum_step(keys, credits, m - 1, n);
    }
}

proof fn lemma_bucket_sum_is_credit_sum(keys: Seq<Vec<u64>>, credits: Seq<u64>, m: int, n: int)
    requires
        0 <= n <= keys.len(),
        forall|r: int| 0 <= r < n ==> key_of(#[trigger] keys[r]@) < m,
    ensures
        bucket_sum(keys, credits, m, n) == credit_sum(credits, n),
    decreases n,
{
    if n > 0 {
        lemma_bucket_sum_is_credit_sum(keys, credits, m, n - 1);
        lemma_bucket_sum_step(keys, credits, m, n);
        lemma_key_nonnegative(keys[n - 1]@, 0);
        assert(key_of(keys[n - 1]@) < m);
    } else {
        lemma_bucket_sum_zero(keys, credits, m);
    }
}

proof fn lemma_bucket_sum_zero(keys: Seq<Vec<u64>>, credits: Seq<u64>, m: int)
    ensures
        bucket_sum(keys, credits, m, 0) == 0,
    decreases m,
{
    if m > 0 {
        lemma_bucket_sum_zero(keys, credits, m - 1);
    }
}

proof fn lemma_histogram_sum(keys: Seq<Vec<u64>>, credits: Seq<u64>, m: nat)
    ensures
        reduce(seq_sum(histogram(keys, credits, m))) == reduce(bucket_sum(keys, credits, m as int, credits.len() as int)),
    decreases m,
{
    let h = histogram(keys, credits, m);
    if m > 0 {
        let prev = histogram(keys, credits, (m - 1) as nat);
        assert(h.drop_last() =~= prev);
        lemma_histogram_sum(keys, credits, (m - 1) as nat);
        let a = seq_sum(prev);
        let b = bucket_sum(keys, credits, m - 1, credits.len() as int);
        let c = credit_total(keys, credits, m - 1, credits.len() as int);
        assert(h.last() == reduce(c));
        lemma_add_mod_noop(a, reduce(c), PRIME as int);
        lemma_add_mod_noop(b, c, PRIME as int);
        lemma_mod_twice(c, PRIME as int);
    }
}

/// Aggregation loses and invents no credit: when every record's breakdown key
/// is below `max_breakdown_key`, the buckets of the histogram sum, in the
/// field, to the sum of all credited values, in whatever order the records
/// come.
pub proof fn lemma_histogram_preserves_total(keys: Seq<Vec<u64>>, credits: Seq<u64>, max_breakdown_key: u32)
    requires
        valid_records(keys, credits, max_breakdown_key),
        forall|r: int| 0 <= r < keys.len() ==> key_of(#[trigger] keys[r]@) < max_breakdown_key,
    ensures
        reduce(seq_sum(histogram(keys, credits, max_breakdown_key as nat))) == reduce(credit_sum(credits, credits.len() as int)),
{
    lemma_histogram_sum(keys, credits, max_breakdown_key as nat);
    lemma_bucket_sum_is_credit_sum(keys, credits, max_breakdown_key as int, credits.len() as int);
}

/// The sum of entry `k` of the first `n` bucket vectors.
pub open spec fn column_sum(rows: Seq<Vec<u64>>, k: int, n: int) -> int
    decreases n,
{
    if n <= 0 {
        0
    } else {
        column_sum(rows, k, n - 1) + rows[n - 1]@[k]
    }
}

/// Every row has `num_buckets` entries, each a field element.
pub open spec fn bucket_vectors(rows: Seq<Vec<u64>>, num_buckets: nat) -> bool {
    &&& forall|i: int| 0 <= i < rows.len() ==> (#[trigger] rows[i])@.len() == num_buckets
    &&& forall|i: int, k: int| 0 <= i < rows.len() && 0 <= k < num_buckets ==> is_field_element(#[trigger] rows[i]@[k])
}

/// Folds bucket vectors into one histogram of `num_buckets` buckets: bucket
/// `k` is the field sum of entry `k` of every row. The rows may be one
/// party's shares: the fold only adds.
pub fn reduce_bucket_vectors(rows: &Vec<Vec<u64>>, num_buckets: usize) -> (r: Vec<u64>)
    requires
        bucket_vectors(rows@, num_buckets as nat),
    ensures
        r@.len() == num_buckets,
        forall|k: int| 0 <= k < num_buckets ==> #[trigger] r@[k] as int == reduce(column_sum(rows@, k, rows@.len() as int)),
{
    let mut acc: Vec<u64> = Vec::new();
    let mut k: usize = 0;
    while k < num_buckets
        invariant
            k <= num_buckets,
            acc@.len() == k,
            forall|m: int| 0 <= m < k ==> #[trigger] acc@[m] == 0,
        decreases num_buckets - k,
    {
        acc.push(0);
        k = k + 1;
    }
    let mut i: usize = 0;
    while i < rows.len()
        invariant
            0 <= i <= rows@.len(),
            bucket_vectors(rows@, num_buckets as nat),
            acc@.len() == num_buckets,
            forall|m: int| 0 <= m < num_buckets ==> is_field_element(#[trigger] acc@[m]),
            forall|m: int| 0 <= m < num_buckets ==> #[trigger] acc@[m] as int == reduce(column_sum(rows@, m, i as int)),
        decreases rows@.len() - i,
    {
        let row = &rows[i];
        assert(row@.len() == num_buckets);
        assert forall|m: int| 0 <= m < num_buckets implies is_field_element(#[trigger] row@[m]) by {
            assert(is_field_element(rows@[i as int]@[m]));
        }
        let ghost before = acc@;
        add_bucket_vector(&mut acc, row);
        proof {
            assert forall|m: int| 0 <= m < num_buckets implies #[trigger] acc@[m] as int == reduce(column_sum(rows@, m, i + 1)) by {
                let prev = column_sum(rows@, m, i as int);
                lemma_add_mod_noop(prev, row@[m] as int, PRIME as int);
                lemma_reduce_field_element(row@[m]);
                lemma_mod_twice(prev, PRIME as int);
            }
        }
        i = i + 1;
    }
    acc
}

/// The sum, over the first `n` records, of entry `k` of the bucket vector
/// that the three parties' shares `a`, `b`, `c` reconstruct.
pub open spec fn reconstructed_column_sum(a: Seq<Vec<u64>>, b: Seq<Vec<u64>>, c: Seq<Vec<u64>>, k: int, n: int) -> int
    decreases n,
{
    if n <= 0 {
        0
    } else {
        reconstructed_column_sum(a, b, c, k, n - 1) + reduce(a[n - 1]@[k] + b[n - 1]@[k] + c[n - 1]@[k])
    }
}

proof fn lemma_congruent_add(x: int, y: int, z: int)
    requires
        reduce(x) == reduce(y),
    ensures
        reduce(x + z) == reduce(y + z),
{
    lemma_add_mod_noop(x, z, PRIME as int);
    lemma_add_mod_noop(y, z, PRIME as int);
}

proof fn lemma_reduce_three(x: int, y: int, z: int)
    ensures
        reduce(reduce(x) + reduce(y) + reduce(z)) == reduce(x + y + z),
{
    let p = PRIME as int;
    lemma_add_mod_noop(x, y, p);
    lemma_mod_twice(x + y, p);
    assert(reduce(reduce(x) + reduce(y)) == reduce(x + y));
    lemma_congruent_add(reduce(x) + reduce(y), x + y, reduce(z));
    lemma_add_mod_noop_right(x + y, z, p);
}

proof fn lemma_column_sums_reconstruct(a: Seq<Vec<u64>>, b: Seq<Vec<u64>>, c: Seq<Vec<u64>>, k: int, n: int)
    requires
        0 <= n,
    ensures
        reduce(column_sum(a, k, n) + column_sum(b, k, n) + column_sum(c, k, n)) == reduce(reconstructed_column_sum(a, b, c, k, n)),
    decreases n,
{
    if n > 0 {
        lemma_column_sums_reconstruct(a, b, c, k, n - 1);
        let prev = column_sum(a, k, n - 1) + column_sum(b, k, n - 1) + column_sum(c, k, n - 1);
        let x = a[n - 1]@[k] + b[n - 1]@[k] + c[n - 1]@[k];
        let rprev = reconstructed_column_sum(a, b, c, k, n - 1);
        assert(column_sum(a, k, n) + column_sum(b, k, n) + column_sum(c, k, n) == prev + x);
        lemma_congruent_add(prev, rprev, x);
        lemma_add_mod_noop_right(rprev, x, PRIME as int);
    }
}

/// Reduction commutes with reconstruction: when each of three parties folds
/// its own shares of the bucket vectors, the three histograms add up, in the
/// field, to the fold of the reconstructed bucket vectors. This is why the
/// reducer needs no communication.
pub proof fn lemma_reduction_is_local(a: Seq<Vec<u64>>, b: Seq<Vec<u64>>, c: Seq<Vec<u64>>, k: int, n: int)
    requires
        0 <= n,
    ensures
        reduce(reduce(column_sum(a, k, n)) + reduce(column_sum(b, k, n)) + reduce(column_sum(c, k, n)))
            == reduce(reconstructed_column_sum(a, b, c, k, n)),
{
    lemma_reduce_three(column_sum(a, k, n), column_sum(b, k, n), column_sum(c, k, n));
    lemma_column_sums_reconstruct(a, b, c, k, n);
}

/// The records as pairs of the bits of a breakdown key and a credit.
pub open spec fn records(keys: Seq<Vec<u64>>, credits: Seq<u64>) -> Seq<(Seq<u64>, u64)> {
    Seq::new(credits.len(), |i: int| (keys[i]@, credits[i]))
}

/// The credit that a record gives to bucket `k`.
pub open spec fn credit_to(record: (Seq<u64>, u64), k: int) -> int {
    if key_of(record.0) == k {
        record.1 as int
    } else {
        0
    }
}

/// The sum of the credits that the records of `s` give to bucket `k`.
pub open spec fn record_total(s: Seq<(Seq<u64>, u64)>, k: int) -> int
    decreases s.len(),
{
    if s.len() == 0 {
        0
    } else {
        record_total(s.drop_last(), k) + credit_to(s.last(), k)
    }
}

proof fn lemma_credit_total_is_record_total(keys: Seq<Vec<u64>>, credits: Seq<u64>, k: int, n: int)
    requires
        0 <= n <= credits.len(),
    ensures
        credit_total(keys, credits, k, n) == record_total(records(keys, credits).take(n), k),
    decreases n,
{
    if n > 0 {
        lemma_credit_total_is_record_total(keys, credits, k, n - 1);
        assert(records(keys, credits).take(n).drop_last() =~= records(keys, credits).take(n - 1));
    }
}

proof fn lemma_record_total_remove(s: Seq<(Seq<u64>, u64)>, j: int, k: int)
    requires
        0 <= j < s.len(),
    ensures
        record_total(s, k) == record_total(s.remove(j), k) + credit_to(s[j], k),
    decreases s.len(),
{
    if j == s.len() - 1 {
        assert(s.remove(j) =~= s.drop_last());
    } else {
        lemma_record_total_remove(s.drop_last(), j, k);
        assert(s.remove(j).drop_last() =~= s.drop_last().remove(j));
        assert(s.remove(j).last() == s.last());
    }
}

proof fn lemma_record_total_reordered(s1: Seq<(Seq<u64>, u64)>, s2: Seq<(Seq<u64>, u64)>, k: int)
    requires
        s1.to_multiset() == s2.to_multiset(),
    ensures
        record_total(s1, k) == record_total(s2, k),
    decreases s1.len(),
{
    broadcast use vstd::seq_lib::group_to_multiset_ensures;
    broadcast use vstd::multiset::group_multiset_axioms;

    if s1.len() == 0 {
        assert(s2.to_multiset().len() == 0);
        assert(s2.len() == 0);
    } else {
        let x = s1.last();
        let rest = s1.drop_last();
        assert(s1 =~= rest.push(x));
        assert(s1.to_multiset() == rest.to_multiset().insert(x));
        assert(s2.to_multiset().count(x) > 0);
        assert(s2.contains(x));
        let j = choose|j: int| 0 <= j < s2.len() && s2[j] == x;
        assert(s2.remove(j).to_multiset() == s2.to_multiset().remove(x));
        assert(rest.to_multiset() =~= s2.remove(j).to_multiset());
        lemma_record_total_reordered(rest, s2.remove(j), k);
        lemma_record_total_remove(s2, j, k);
    }
}

/// The histogram does not depend on the order of the records: two batches
/// that hold the same records, each as often, give the same histogram.
pub proof fn lemma_histogram_ignores_order(
    keys1: Seq<Vec<u64>>,
    credits1: Seq<u64>,
    keys2: Seq<Vec<u64>>,
    credits2: Seq<u64>,
    max_breakdown_key: nat,
)
    requires
        records(keys1, credits1).to_multiset() == records(keys2, credits2).to_multiset(),
    ensures
        histogram(keys1, credits1, max_breakdown_key) == histogram(keys2, credits2, max_breakdown_key),
{
    assert forall|k: int| 0 <= k < max_breakdown_key implies
        #[trigger] histogram(keys1, credits1, max_breakdown_key)[k] == histogram(keys2, credits2, max_breakdown_key)[k] by {
        lemma_credit_total_is_record_total(keys1, credits1, k, credits1.len() as int);
        lemma_credit_total_is_record_total(keys2, credits2, k, credits2.len() as int);
        assert(records(keys1, credits1).take(credits1.len() as int) =~= records(keys1, credits1));
        assert(records(keys2, credits2).take(credits2.len() as int) =~= records(keys2, credits2));
        lemma_record_total_reordered(records(keys1, credits1), records(keys2, credits2), k);
    }
    assert(histogram(keys1, credits1, max_breakdown_key) =~= histogram(keys2, credits2, max_breakdown_key));
}

} // verus!
