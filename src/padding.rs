//! Padding with dummy rows, which hides how many rows share a match key.
//!
//! Two parties, `h_i` and `h_i_plus_one`, agree through a shared random
//! stream on how many distinct dummy match keys to add for each multiplicity
//! class `c` in `1..=MATCHKEY_CARDINALITY_CAP`, draw each key from the same
//! stream, and add `c` rows for each. The match key of a dummy row is shared
//! so that `h_i` holds `(0, mk)`, `h_i_plus_one` holds `(mk, 0)` and the third
//! party, `h_out`, holds zeros; every other field of a dummy row is zero.
use vstd::prelude::*;
use crate::prss::{
    Role, InstrumentedSequentialSharedRandomness, stream_prefix, drawn_from, advance, count_up_by, lemma_advance_step,
};

verus! {

/// The largest multiplicity class of dummy match keys.
pub const MATCHKEY_CARDINALITY_CAP: usize = 10;

/// One party's replicated share of a value: the part it holds with its left
/// neighbour and the part it holds with its right neighbour.
#[derive(Debug, Clone, Copy, PartialEq, Eq, Structural)]
pub struct ReplicatedShare {
    pub left: u64,
    pub right: u64,
}

/// One party's shares of an input row.
#[derive(Debug, Clone, Copy, PartialEq, Eq, Structural)]
pub struct InputRow {
    pub match_key: ReplicatedShare,
    pub is_trigger: ReplicatedShare,
    pub breakdown_key: ReplicatedShare,
    pub trigger_value: ReplicatedShare,
    pub timestamp: ReplicatedShare,
}

/// The share of zero.
pub open spec fn zero_share() -> ReplicatedShare {
    ReplicatedShare { left: 0, right: 0 }
}

/// The number of dummy rows for the first `n` classes: the sum over classes
/// `c` of `samples[c - 1] * c`.
pub open spec fn dummy_row_count(samples: Seq<u32>, n: int) -> int
    decreases n,
{
    if n <= 0 {
        0
    } else {
        dummy_row_count(samples, n - 1) + samples[n - 1] * n
    }
}

/// The number of distinct dummy match keys for the first `n` classes.
pub open spec fn dummy_key_count(samples: Seq<u32>, n: int) -> int
    decreases n,
{
    if n <= 0 {
        0
    } else {
        dummy_key_count(samples, n - 1) + samples[n - 1]
    }
}

/// Each key of `keys`, in order, repeated `c` times.
pub open spec fn repeat_each(keys: Seq<u64>, c: nat) -> Seq<u64>
    decreases keys.len(),
{
    if keys.len() == 0 {
        Seq::empty()
    } else {
        repeat_each(keys.drop_last(), c) + Seq::new(c, |t: int| keys.last())
    }
}

/// The dummy match keys of the first `n` classes: class `c` takes the next
/// `samples[c - 1]` keys of `keys` and repeats each `c` times.
pub open spec fn expanded_keys(samples: Seq<u32>, keys: Seq<u64>, n: int) -> Seq<u64>
    decreases n,
{
    if n <= 0 {
        Seq::empty()
    } else {
        expanded_keys(samples, keys, n - 1) + repeat_each(
            keys.subrange(dummy_key_count(samples, n - 1), dummy_key_count(samples, n)),
            n as nat,
        )
    }
}

/// The share of a dummy match key `mk` that `role` holds.
pub open spec fn dummy_key_share(mk: u64, role: Role, h_i: Role, h_i_plus_one: Role) -> ReplicatedShare {
    if role == h_i {
        ReplicatedShare { left: 0, right: mk }
    } else if role == h_i_plus_one {
        ReplicatedShare { left: mk, right: 0 }
    } else {
        zero_share()
    }
}

/// The dummy row with match key `mk`, as `role` holds it.
pub open spec fn dummy_row(mk: u64, role: Role, h_i: Role, h_i_plus_one: Role) -> InputRow {
    InputRow {
        match_key: dummy_key_share(mk, role, h_i, h_i_plus_one),
        is_trigger: zero_share(),
        breakdown_key: zero_share(),
        trigger_value: zero_share(),
        timestamp: zero_share(),
    }
}

/// `rows` is `input` followed by the dummy rows, as `role` holds them, of
/// the distinct keys `keys` laid out by class.
pub open spec fn padded_with_dummies(
    rows: Seq<InputRow>,
    input: Seq<InputRow>,
    samples: Seq<u32>,
    keys: Seq<u64>,
    role: Role,
    h_i: Role,
    h_i_plus_one: Role,
) -> bool {
    &&& rows.len() == input.len() + dummy_row_count(samples, samples.len() as int)
    &&& forall|k: int| 0 <= k < input.len() ==> #[trigger] rows[k] == input[k]
    &&& forall|k: int| 0 <= k < dummy_row_count(samples, samples.len() as int) ==>
        #[trigger] rows[input.len() + k] == dummy_row(expanded_keys(samples, keys, samples.len() as int)[k], role, h_i, h_i_plus_one)
}

/// Three distinct roles.
pub open spec fn distinct_roles(a: Role, b: Role, c: Role) -> bool {
    a != b && a != c && b != c
}

proof fn lemma_counts_grow(samples: Seq<u32>, n: int)
    requires
        0 <= n,
    ensures
        0 <= dummy_key_count(samples, n) <= dummy_key_count(samples, n + 1),
        0 <= dummy_row_count(samples, n) <= dummy_row_count(samples, n + 1),
    decreases n,
{
    if n > 0 {
        lemma_counts_grow(samples, n - 1);
    }
    assert(samples[n] * (n + 1) >= 0) by (nonlinear_arith)
        requires
            n >= 0,
    ;
}

proof fn lemma_counts_bounded(samples: Seq<u32>, n: int)
    requires
        0 <= n,
    ensures
        dummy_key_count(samples, n) <= n * 0x1_0000_0000,
        dummy_row_count(samples, n) <= n * n * 0x1_0000_0000,
    decreases n,
{
    if n > 0 {
        lemma_counts_bounded(samples, n - 1);
        assert(samples[n - 1] * n <= n * 0xffff_ffff) by (nonlinear_arith)
            requires
                n > 0,
                samples[n - 1] <= 0xffff_ffff,
        ;
        assert((n - 1) * (n - 1) * 0x1_0000_0000 + n * 0xffff_ffff <= n * n * 0x1_0000_0000) by (nonlinear_arith)
            requires
                n > 0,
        ;
    }
}

proof fn lemma_repeat_each_len(keys: Seq<u64>, c: nat)
    ensures
        repeat_each(keys, c).len() == keys.len() * c,
    decreases keys.len(),
{
    if keys.len() > 0 {
        lemma_repeat_each_len(keys.drop_last(), c);
        assert((keys.len() - 1) * c + c == keys.len() * c) by (nonlinear_arith);
    }
}

proof fn lemma_expanded_len(samples: Seq<u32>, keys: Seq<u64>, n: int)
    requires
        0 <= n,
        dummy_key_count(samples, n) <= keys.len(),
    ensures
        expanded_keys(samples, keys, n).len() == dummy_row_count(samples, n),
    decreases n,
{
    if n > 0 {
        lemma_counts_grow(samples, n - 1);
        lemma_expanded_len(samples, keys, n - 1);
        let sub = keys.subrange(dummy_key_count(samples, n - 1), dummy_key_count(samples, n));
        lemma_repeat_each_len(sub, n as nat);
    }
}

/// Draws `count` dummy match keys: the next `count` values of the shared
/// stream.
pub fn draw_dummy_match_keys(rng: &mut InstrumentedSequentialSharedRandomness, count: u64) -> (r: Vec<u64>)
    ensures
        r@ == stream_prefix(old(rng).inner, count as nat),
        drawn_from(*old(rng), *final(rng), count as nat),
{
    let ghost start = *rng;
    let mut keys: Vec<u64> = Vec::new();
    let mut i: u64 = 0;
    proof {
        vstd::arithmetic::div_mod::lemma_small_mod(start.inner.position() as nat, 0x1_0000_0000_0000_0000nat);
    }
    while i < count
        invariant
            i <= count,
            start == *old(rng),
            keys@.len() == i,
            forall|j: int| 0 <= j < i ==> #[trigger] keys@[j] == start.inner.upcoming(j),
            drawn_from(start, *rng, i as nat),
        decreases count - i,
    {
        let mk = rng.next_u64();
        proof {
            lemma_advance_step(start.inner.position(), i as int);
        }
        keys.push(mk);
        i = i + 1;
    }
    assert(keys@ =~= stream_prefix(start.inner, count as nat));
    keys
}

/// The number of distinct dummy match keys that `samples` asks for.
pub fn total_dummy_keys(samples: &Vec<u32>) -> (r: u64)
    requires
        samples@.len() == MATCHKEY_CARDINALITY_CAP,
    ensures
        r == dummy_key_count(samples@, samples@.len() as int),
{
    let mut total: u64 = 0;
    let mut c: usize = 0;
    while c < samples.len()
        invariant
            c <= samples@.len() == MATCHKEY_CARDINALITY_CAP,
            total == dummy_key_count(samples@, c as int),
        decreases samples@.len() - c,
    {
        proof {
            lemma_counts_bounded(samples@, c + 1);
        }
        total = total + samples[c] as u64;
        c = c + 1;
    }
    total
}

/// The number of dummy rows that `samples` asks for: the sum over classes
/// `c` of `samples[c - 1] * c`.
pub fn total_dummy_rows(samples: &Vec<u32>) -> (r: u64)
    requires
        samples@.len() == MATCHKEY_CARDINALITY_CAP,
    ensures
        r == dummy_row_count(samples@, samples@.len() as int),
{
    let mut total: u64 = 0;
    let mut c: usize = 0;
    while c < samples.len()
        invariant
            c <= samples@.len() == MATCHKEY_CARDINALITY_CAP,
            total == dummy_row_count(samples@, c as int),
        decreases samples@.len() - c,
    {
        proof {
            lemma_counts_bounded(samples@, c + 1);
            lemma_counts_grow(samples@, c as int);
            assert(samples@[c as int] * (c + 1) <= 0xffff_ffff * 10) by (nonlinear_arith)
                requires
                    samples@[c as int] <= 0xffff_ffff,
                    c < 10,
            ;
            assert((c + 1) * (c + 1) * 0x1_0000_0000 <= 100 * 0x1_0000_0000) by (nonlinear_arith)
                requires
                    c < 10,
            ;
        }
        total = total + samples[c] as u64 * (c as u64 + 1);
        c = c + 1;
    }
    total
}

/// Appends `count` copies of `mk`.
fn push_copies(out: &mut Vec<u64>, mk: u64, count: usize)
    ensures
        final(out)@ == old(out)@ + Seq::new(count as nat, |u: int| mk),
{
    let ghost before = out@;
    let mut t: usize = 0;
    while t < count
        invariant
            t <= count,
            before == old(out)@,
            out@ == before + Seq::new(t as nat, |u: int| mk),
        decreases count - t,
    {
        out.push(mk);
        proof {
            assert(out@ =~= before + Seq::new((t + 1) as nat, |u: int| mk));
        }
        t = t + 1;
    }
}

/// Lays out the dummy match keys: class `c` (from 1) takes the next
/// `samples[c - 1]` keys of `keys` and repeats each `c` times.
pub fn expand_dummy_match_keys(samples: &Vec<u32>, keys: &Vec<u64>) -> (r: Vec<u64>)
    requires
        samples@.len() == MATCHKEY_CARDINALITY_CAP,
        keys@.len() == dummy_key_count(samples@, samples@.len() as int),
    ensures
        r@ == expanded_keys(samples@, keys@, samples@.len() as int),
        r@.len() == dummy_row_count(samples@, samples@.len() as int),
{
    let mut out: Vec<u64> = Vec::new();
    let n_keys = keys.len();
    let mut next: usize = 0;
    let mut c: usize = 0;
    proof {
        lemma_counts_grow(samples@, 0);
    }
    while c < samples.len()
        invariant
            c <= samples@.len() == MATCHKEY_CARDINALITY_CAP,
            keys@.len() == dummy_key_count(samples@, samples@.len() as int),
            keys@.len() == n_keys,
            next == dummy_key_count(samples@, c as int),
            out@ == expanded_keys(samples@, keys@, c as int),
        decreases samples@.len() - c,
    {
        let ghost start = next as int;
        let ghost prefix = out@;
        proof {
            lemma_counts_bounded(samples@, c + 1);
            lemma_counts_grow(samples@, c as int);
            lemma_key_count_prefix(samples@, c + 1, samples@.len() as int);
        }
        let class_size = samples[c];
        let mut j: u32 = 0;
        while j < class_size
            invariant
                c < samples@.len() == MATCHKEY_CARDINALITY_CAP,
                class_size == samples@[c as int],
                j <= class_size,
                0 <= start == dummy_key_count(samples@, c as int),
                start + class_size == dummy_key_count(samples@, c + 1),
                dummy_key_count(samples@, c + 1) <= keys@.len() == n_keys,
                next == start + j,
                out@ == prefix + repeat_each(keys@.subrange(start, start + j), (c + 1) as nat),
            decreases class_size - j,
        {
            let mk = keys[next];
            push_copies(&mut out, mk, c + 1);
            proof {
                let sub = keys@.subrange(start, start + j + 1);
                assert(sub.drop_last() =~= keys@.subrange(start, start + j));
                assert(sub.last() == mk);
                assert(out@ =~= prefix + repeat_each(sub, (c + 1) as nat));
            }
            next = next + 1;
            j = j + 1;
        }
        c = c + 1;
    }
    proof {
        lemma_expanded_len(samples@, keys@, samples@.len() as int);
    }
    out
}

proof fn lemma_key_count_prefix(samples: Seq<u32>, a: int, b: int)
    requires
        0 <= a <= b,
    ensures
        dummy_key_count(samples, a) <= dummy_key_count(samples, b),
    decreases b - a,
{
    if a < b {
        lemma_key_count_prefix(samples, a, b - 1);
        lemma_counts_grow(samples, b - 1);
    }
}

/// The dummy rows, as `role` holds them, for the match keys `mks`.
pub fn dummy_rows(mks: &Vec<u64>, role: Role, h_i: Role, h_i_plus_one: Role) -> (r: Vec<InputRow>)
    ensures
        r@.len() == mks@.len(),
        forall|k: int| 0 <= k < r@.len() ==> #[trigger] r@[k] == dummy_row(mks@[k], role, h_i, h_i_plus_one),
{
    let mut rows: Vec<InputRow> = Vec::new();
    let mut k: usize = 0;
    while k < mks.len()
        invariant
            k <= mks@.len(),
            rows@.len() == k,
            forall|m: int| 0 <= m < k ==> #[trigger] rows@[m] == dummy_row(mks@[m], role, h_i, h_i_plus_one),
        decreases mks@.len() - k,
    {
        let mk = mks[k];
        let zero = ReplicatedShare { left: 0, right: 0 };
        let match_key = if role == h_i {
            ReplicatedShare { left: 0, right: mk }
        } else if role == h_i_plus_one {
            ReplicatedShare { left: mk, right: 0 }
        } else {
            zero
        };
        rows.push(InputRow {
            match_key,
            is_trigger: zero,
            breakdown_key: zero,
            trigger_value: zero,
            timestamp: zero,
        });
        k = k + 1;
    }
    rows
}

/// One pass of padding by the pair `h_i`, `h_i_plus_one`, run by the party
/// `role`. `samples[c - 1]` is the number of distinct dummy match keys of
/// multiplicity `c` that the pair sampled. `h_i` draws the keys from `right`,
/// the stream it shares with its right neighbour, and `h_i_plus_one` from
/// `left`, the one it shares with its left neighbour, so both draw the same
/// keys. The dummy rows are appended to `input`; `h_out` appends none and
/// draws nothing.
pub fn apply_dp_padding_pass(
    input: Vec<InputRow>,
    role: Role,
    h_i: Role,
    h_i_plus_one: Role,
    h_out: Role,
    samples: &Vec<u32>,
    left: &mut InstrumentedSequentialSharedRandomness,
    right: &mut InstrumentedSequentialSharedRandomness,
) -> (r: Vec<InputRow>)
    requires
        distinct_roles(h_i, h_i_plus_one, h_out),
        samples@.len() == MATCHKEY_CARDINALITY_CAP,
    ensures
        role == h_out ==> r@ == input@ && *final(left) == *old(left) && *final(right) == *old(right),
        role == h_i ==> *final(left) == *old(left)
            && drawn_from(*old(right), *final(right), dummy_key_count(samples@, samples@.len() as int) as nat)
            && padded_with_dummies(r@, input@, samples@,
                stream_prefix(old(right).inner, dummy_key_count(samples@, samples@.len() as int) as nat), role, h_i, h_i_plus_one),
        role == h_i_plus_one ==> *final(right) == *old(right)
            && drawn_from(*old(left), *final(left), dummy_key_count(samples@, samples@.len() as int) as nat)
            && padded_with_dummies(r@, input@, samples@,
                stream_prefix(old(left).inner, dummy_key_count(samples@, samples@.len() as int) as nat), role, h_i, h_i_plus_one),
{
    if role == h_out {
        return input;
    }
    let count = total_dummy_keys(samples);
    let keys = if role == h_i {
        draw_dummy_match_keys(right, count)
    } else {
        draw_dummy_match_keys(left, count)
    };
    let mks = expand_dummy_match_keys(samples, &keys);
    let rows = dummy_rows(&mks, role, h_i, h_i_plus_one);
    let mut out = input;
    let ghost base = out@;
    let mut k: usize = 0;
    while k < rows.len()
        invariant
            k <= rows@.len(),
            out@.len() == base.len() + k,
            forall|m: int| 0 <= m < base.len() ==> #[trigger] out@[m] == base[m],
            forall|m: int| 0 <= m < k ==> #[trigger] out@[base.len() + m] == rows@[m],
        decreases rows@.len() - k,
    {
        out.push(rows[k]);
        k = k + 1;
    }
    proof {
        assert forall|k: int| 0 <= k < dummy_row_count(samples@, samples@.len() as int) implies
            #[trigger] out@[base.len() + k] == dummy_row(expanded_keys(samples@, keys@, samples@.len() as int)[k], role, h_i, h_i_plus_one) by {
            assert(out@[base.len() + k] == rows@[k]);
        }
    }
    out
}

/// Padding with dummy rows generated by the pair `H1`, `H2`, run by the party
/// `role`; `H3` adds none.
pub fn apply_dp_padding(
    input: Vec<InputRow>,
    role: Role,
    samples: &Vec<u32>,
    left: &mut InstrumentedSequentialSharedRandomness,
    right: &mut InstrumentedSequentialSharedRandomness,
) -> (r: Vec<InputRow>)
    requires
        samples@.len() == MATCHKEY_CARDINALITY_CAP,
    ensures
        role == Role::H3 ==> r@ == input@ && *final(left) == *old(left) && *final(right) == *old(right),
        role == Role::H1 ==> *final(left) == *old(left)
            && drawn_from(*old(right), *final(right), dummy_key_count(samples@, samples@.len() as int) as nat)
            && padded_with_dummies(r@, input@, samples@,
                stream_prefix(old(right).inner, dummy_key_count(samples@, samples@.len() as int) as nat), role, Role::H1, Role::H2),
        role == Role::H2 ==> *final(right) == *old(right)
            && drawn_from(*old(left), *final(left), dummy_key_count(samples@, samples@.len() as int) as nat)
            && padded_with_dummies(r@, input@, samples@,
                stream_prefix(old(left).inner, dummy_key_count(samples@, samples@.len() as int) as nat), role, Role::H1, Role::H2),
{
    apply_dp_padding_pass(input, role, Role::H1, Role::H2, Role::H3, samples, left, right)
}

/// The party that reconstructs a share from the pair `h_i`, `h_i_plus_one`:
/// the part only `h_i` holds, the part both hold, and the part only
/// `h_i_plus_one` holds, combined by exclusive or.
pub open spec fn reconstruct_from_pair(at_h_i: ReplicatedShare, at_h_i_plus_one: ReplicatedShare) -> u64 {
    at_h_i.left ^ at_h_i.right ^ at_h_i_plus_one.right
}

/// The shares of a dummy match key are as padding promises: `h_out` holds
/// zero, the part that `h_i` and `h_i_plus_one` share is the same on both
/// sides, and the three parts together give back the key.
pub proof fn lemma_dummy_key_shares(mk: u64, h_i: Role, h_i_plus_one: Role, h_out: Role)
    requires
        distinct_roles(h_i, h_i_plus_one, h_out),
    ensures
        dummy_key_share(mk, h_out, h_i, h_i_plus_one) == zero_share(),
        dummy_key_share(mk, h_i, h_i, h_i_plus_one).right == dummy_key_share(mk, h_i_plus_one, h_i, h_i_plus_one).left,
        reconstruct_from_pair(
            dummy_key_share(mk, h_i, h_i, h_i_plus_one),
            dummy_key_share(mk, h_i_plus_one, h_i, h_i_plus_one),
        ) == mk,
{
    assert(0u64 ^ mk ^ 0u64 == mk) by (bit_vector);
}

} // verus!
