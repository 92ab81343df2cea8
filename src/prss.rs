//! Shared randomness between helper parties, with a count of the values drawn
//! for telemetry.
//!
//! Every stream is ChaCha20 keyed by a 32-byte seed, read 64 bits at a time.
//! A sequential source is one such stream, which two parties seed alike. An
//! indexed source derives, for every record index, one stream from the key
//! that this party shares with its left neighbour and one from the key it
//! shares with its right neighbour, so that every pair of parties agrees on
//! the chunks of an index without talking.
use vstd::prelude::*;
use rand_chacha::ChaCha20Rng;

verus! {

/// The 64-bit value that the ChaCha20 stream keyed by the 32-byte `seed`
/// yields when read from the 32-bit word offset `word_pos`.
pub uninterp spec fn chacha20_u64_at(seed: Seq<u8>, word_pos: u128) -> u64;

/// Relies on rand_chacha's `ChaCha20Rng`: `from_seed`, `set_word_pos` and
/// `next_u64`. ChaCha20 output depends on the seed and the stream position
/// alone.
#[verifier::external_body]
fn chacha20_word(seed: &Vec<u8>, word_pos: u128) -> (r: u64)
    requires
        seed@.len() == 32,
    ensures
        r == chacha20_u64_at(seed@, word_pos),
{
    let mut bytes = [0u8; 32];
    bytes.copy_from_slice(seed.as_slice());
    let mut rng = <ChaCha20Rng as rand::SeedableRng>::from_seed(bytes);
    rng.set_word_pos(word_pos);
    rand::RngCore::next_u64(&mut rng)
}

/// The seed domain of sequential streams.
pub const SEQUENTIAL_DOMAIN: u8 = 0;

/// The seed domain of indexed streams.
pub const INDEXED_DOMAIN: u8 = 1;

/// One of the three helper parties.
#[derive(Debug, Clone, Copy, PartialEq, Eq, Structural)]
pub enum Role {
    H1,
    H2,
    H3,
}

impl Role {
    /// The name under which telemetry reports this party.
    pub fn as_static_str(&self) -> (r: &'static str)
        ensures
            r@ == role_name(*self),
    {
        match self {
            Role::H1 => "H1",
            Role::H2 => "H2",
            Role::H3 => "H3",
        }
    }
}

/// The telemetry name of a role.
pub open spec fn role_name(role: Role) -> Seq<char> {
    match role {
        Role::H1 => "H1"@,
        Role::H2 => "H2"@,
        Role::H3 => "H3"@,
    }
}

/// One more than `n`, held at `u64::MAX`.
pub open spec fn count_up(n: u64) -> u64 {
    if n < u64::MAX {
        (n + 1) as u64
    } else {
        n
    }
}

/// `n + k`, held at `u64::MAX`.
pub open spec fn count_up_by(n: u64, k: int) -> u64 {
    if n + k < u64::MAX {
        (n + k) as u64
    } else {
        u64::MAX
    }
}

fn increment(n: u64) -> (r: u64)
    ensures
        r == count_up(n),
{
    if n < u64::MAX {
        n + 1
    } else {
        n
    }
}

/// The stream position `i` reads after `position`, wrapping after `2^64`
/// reads.
pub open spec fn advance(position: u64, i: int) -> u64 {
    ((position + i) % 0x1_0000_0000_0000_0000) as u64
}

fn next_position(position: u64) -> (r: u64)
    ensures
        r == advance(position, 1),
{
    if position < u64::MAX {
        position + 1
    } else {
        0
    }
}

/// Reading one more position after `advance(position, i)` is reading
/// `i + 1` after `position`.
pub proof fn lemma_advance_step(position: u64, i: int)
    requires
        0 <= i,
    ensures
        advance(advance(position, i), 1) == advance(position, i + 1),
{
    let m = 0x1_0000_0000_0000_0000int;
    vstd::arithmetic::div_mod::lemma_add_mod_noop(position + i, 1, m);
    vstd::arithmetic::div_mod::lemma_small_mod(1, m as nat);
    vstd::arithmetic::div_mod::lemma_mod_twice(position + i, m);
}

/// The value read at `position` of the stream with `seed`.
pub open spec fn stream_word(seed: Seq<u8>, position: u64) -> u64 {
    chacha20_u64_at(seed, (2 * position) as u128)
}

/// The little-endian bytes of `key` then `index`, then the byte `domain`,
/// padded with zeros to a 32-byte seed. The domain keeps the sequential
/// stream of a key apart from the indexed ones.
pub open spec fn seed_bytes(key: u64, index: u64, domain: u8) -> Seq<u8> {
    Seq::new(32, |i: int|
        if i < 8 {
            ((key as int / pow256(i)) % 256) as u8
        } else if i < 16 {
            ((index as int / pow256(i - 8)) % 256) as u8
        } else if i == 16 {
            domain
        } else {
            0u8
        })
}

/// `256^i`.
pub open spec fn pow256(i: int) -> int
    decreases i,
{
    if i <= 0 {
        1
    } else {
        256 * pow256(i - 1)
    }
}

fn push_le_bytes(out: &mut Vec<u8>, x: u64)
    ensures
        final(out)@.len() == old(out)@.len() + 8,
        forall|i: int| 0 <= i < old(out)@.len() ==> #[trigger] final(out)@[i] == old(out)@[i],
        forall|i: int| 0 <= i < 8 ==> #[trigger] final(out)@[old(out)@.len() + i] == ((x as int / pow256(i)) % 256) as u8,
{
    let ghost start = out@.len();
    let mut rest: u64 = x;
    let mut i: usize = 0;
    while i < 8
        invariant
            0 <= i <= 8,
            out@.len() == start + i,
            start == old(out)@.len(),
            forall|j: int| 0 <= j < start ==> #[trigger] out@[j] == old(out)@[j],
            rest as int == x as int / pow256(i as int),
            forall|j: int| 0 <= j < i ==> #[trigger] out@[start + j] == ((x as int / pow256(j)) % 256) as u8,
        decreases 8 - i,
    {
        out.push((rest % 256) as u8);
        proof {
            assert(pow256(i + 1) == 256 * pow256(i as int));
            assert(pow256(i as int) > 0) by {
                lemma_pow256_positive(i as int);
            }
            vstd::arithmetic::div_mod::lemma_div_denominator(x as int, pow256(i as int), 256);
        }
        rest = rest / 256;
        i = i + 1;
    }
}

proof fn lemma_pow256_positive(i: int)
    ensures
        pow256(i) > 0,
    decreases i,
{
    if i > 0 {
        lemma_pow256_positive(i - 1);
    }
}

/// The seed of the stream of an index under a key.
fn stream_seed(key: u64, index: u64, domain: u8) -> (r: Vec<u8>)
    ensures
        r@ == seed_bytes(key, index, domain),
{
    let mut seed: Vec<u8> = Vec::new();
    push_le_bytes(&mut seed, key);
    let ghost first = seed@;
    push_le_bytes(&mut seed, index);
    assert forall|j: int| 0 <= j < 16 implies #[trigger] seed@[j] == seed_bytes(key, index, domain)[j] by {
        if j < 8 {
            assert(seed@[j] == first[j]);
            assert(first[0 + j] == ((key as int / pow256(j)) % 256) as u8);
        } else {
            assert(seed@[8 + (j - 8)] == ((index as int / pow256(j - 8)) % 256) as u8);
        }
    }
    seed.push(domain);
    let mut i: usize = 17;
    while i < 32
        invariant
            17 <= i <= 32,
            seed@.len() == i,
            forall|j: int| 0 <= j < 17 ==> #[trigger] seed@[j] == seed_bytes(key, index, domain)[j],
            forall|j: int| 17 <= j < i ==> #[trigger] seed@[j] == 0u8,
        decreases 32 - i,
    {
        seed.push(0);
        i = i + 1;
    }
    assert(seed@ =~= seed_bytes(key, index, domain));
    seed
}

/// A stream of shared randomness: ChaCha20 under a 32-byte seed, read
/// 64 bits at a time from the current position.
pub struct SequentialSharedRandomness {
    seed: Vec<u8>,
    position: u64,
}

impl SequentialSharedRandomness {
    #[verifier::type_invariant]
    spec fn seeded(&self) -> bool {
        self.seed@.len() == 32
    }

    /// The seed of the stream.
    pub closed spec fn seed(&self) -> Seq<u8> {
        self.seed@
    }

    /// The position that the next read starts from.
    pub closed spec fn position(&self) -> u64 {
        self.position
    }

    /// The `i`-th value that this stream will hand out from now on.
    pub open spec fn upcoming(&self, i: int) -> u64 {
        stream_word(self.seed(), advance(self.position(), i))
    }

    /// The stream shared under `key`, from its start.
    pub fn new(key: u64) -> (r: Self)
        ensures
            r.seed() == seed_bytes(key, 0, SEQUENTIAL_DOMAIN),
            r.position() == 0,
    {
        SequentialSharedRandomness { seed: stream_seed(key, 0, SEQUENTIAL_DOMAIN), position: 0 }
    }

    /// The next 64-bit value of the stream.
    pub fn next_u64(&mut self) -> (r: u64)
        ensures
            r == old(self).upcoming(0),
            final(self).seed() == old(self).seed(),
            final(self).position() == advance(old(self).position(), 1),
    {
        proof {
            use_type_invariant(&*self);
            vstd::arithmetic::div_mod::lemma_small_mod(self.position as nat, 0x1_0000_0000_0000_0000nat);
        }
        let word_pos: u128 = 2 * (self.position as u128);
        let r = chacha20_word(&self.seed, word_pos);
        self.position = next_position(self.position);
        r
    }
}

/// The next `n` values of a stream.
pub open spec fn stream_prefix(s: SequentialSharedRandomness, n: nat) -> Seq<u64> {
    Seq::new(n, |i: int| s.upcoming(i))
}

/// `after` is `before` with `n` more values drawn: same seed, step and role,
/// the position `n` further on and the count `n` higher, held at `u64::MAX`.
pub open spec fn drawn_from(before: InstrumentedSequentialSharedRandomness, after: InstrumentedSequentialSharedRandomness, n: nat) -> bool {
    &&& after.inner.seed() == before.inner.seed()
    &&& after.inner.position() == advance(before.inner.position(), n as int)
    &&& after.generated == count_up_by(before.generated, n as int)
    &&& after.step == before.step
    &&& after.role == before.role
}

/// The keys that a party shares with its left and right neighbours.
pub struct IndexedSharedRandomness {
    pub left: u64,
    pub right: u64,
}

/// An indexed source of shared randomness whose draws are counted.
pub struct InstrumentedIndexedSharedRandomness {
    inner: IndexedSharedRandomness,
    step: String,
    role: Role,
}

impl InstrumentedIndexedSharedRandomness {
    /// Wraps `source` for the protocol step `step` of the party `role`.
    pub fn new(source: IndexedSharedRandomness, step: String, role: Role) -> (r: Self)
        ensures
            r.keys() == (source.left, source.right),
            r.step_name() == step@,
            r.role() == role,
    {
        InstrumentedIndexedSharedRandomness { inner: source, step, role }
    }

    /// The left and right keys.
    pub closed spec fn keys(&self) -> (u64, u64) {
        (self.inner.left, self.inner.right)
    }

    /// The protocol step that the draws belong to.
    pub closed spec fn step_name(&self) -> Seq<char> {
        self.step@
    }

    /// The party that draws.
    pub closed spec fn role(&self) -> Role {
        self.role
    }

    /// The chunks of the record `index`: pairs of a value shared with the
    /// left neighbour and one shared with the right neighbour.
    pub fn generate_chunks_iter(&self, index: u64) -> (r: InstrumentedChunksIter)
        ensures
            r.left_seed() == seed_bytes(self.keys().0, index, INDEXED_DOMAIN),
            r.right_seed() == seed_bytes(self.keys().1, index, INDEXED_DOMAIN),
            r.position() == 0,
            r.generated() == 0,
            r.step_name() == self.step_name(),
            r.role() == self.role(),
    {
        InstrumentedChunksIter {
            left_seed: stream_seed(self.inner.left, index, INDEXED_DOMAIN),
            right_seed: stream_seed(self.inner.right, index, INDEXED_DOMAIN),
            position: 0,
            step: self.step.clone(),
            role: self.role,
            generated: 0,
        }
    }
}

/// The stream of chunks of one record index, counting the chunks it hands
/// out.
pub struct InstrumentedChunksIter {
    left_seed: Vec<u8>,
    right_seed: Vec<u8>,
    position: u64,
    step: String,
    role: Role,
    generated: u64,
}

impl InstrumentedChunksIter {
    #[verifier::type_invariant]
    spec fn seeded(&self) -> bool {
        self.left_seed@.len() == 32 && self.right_seed@.len() == 32
    }

    /// The seed of the stream shared with the left neighbour.
    pub closed spec fn left_seed(&self) -> Seq<u8> {
        self.left_seed@
    }

    /// The seed of the stream shared with the right neighbour.
    pub closed spec fn right_seed(&self) -> Seq<u8> {
        self.right_seed@
    }

    /// The position of the next chunk.
    pub closed spec fn position(&self) -> u64 {
        self.position
    }

    /// How many chunks were handed out, held at `u64::MAX`.
    pub closed spec fn generated(&self) -> u64 {
        self.generated
    }

    /// The protocol step that the draws belong to.
    pub closed spec fn step_name(&self) -> Seq<char> {
        self.step@
    }

    /// The party that draws.
    pub closed spec fn role(&self) -> Role {
        self.role
    }

    /// The number of chunks handed out, as telemetry reports it.
    pub fn generated_count(&self) -> (r: u64)
        ensures
            r == self.generated(),
    {
        self.generated
    }

    /// The next chunk: the value of the stream shared with the left
    /// neighbour and that of the stream shared with the right neighbour, at
    /// the current position. The stream never ends.
    pub fn next(&mut self) -> (r: Option<(u64, u64)>)
        ensures
            r == Some((stream_word(old(self).left_seed(), old(self).position()), stream_word(old(self).right_seed(), old(self).position()))),
            final(self).left_seed() == old(self).left_seed(),
            final(self).right_seed() == old(self).right_seed(),
            final(self).position() == advance(old(self).position(), 1),
            final(self).generated() == count_up(old(self).generated()),
            final(self).step_name() == old(self).step_name(),
            final(self).role() == old(self).role(),
    {
        proof {
            use_type_invariant(&*self);
        }
        let word_pos: u128 = 2 * (self.position as u128);
        let l = chacha20_word(&self.left_seed, word_pos);
        let r = chacha20_word(&self.right_seed, word_pos);
        self.position = next_position(self.position);
        self.generated = increment(self.generated);
        Some((l, r))
    }
}

/// A sequential source of shared randomness whose draws are counted.
pub struct InstrumentedSequentialSharedRandomness {
    pub inner: SequentialSharedRandomness,
    pub step: String,
    pub role: Role,
    /// How many values were drawn, held at `u64::MAX`.
    pub generated: u64,
}

impl InstrumentedSequentialSharedRandomness {
    /// Wraps `source` for the protocol step `step` of the party `role`.
    pub fn new(source: SequentialSharedRandomness, step: String, role: Role) -> (r: Self)
        ensures
            r.inner == source,
            r.step@ == step@,
            r.role == role,
            r.generated == 0,
    {
        InstrumentedSequentialSharedRandomness { inner: source, step, role, generated: 0 }
    }

    /// The next 64-bit value of the stream.
    pub fn next_u64(&mut self) -> (r: u64)
        ensures
            r == old(self).inner.upcoming(0),
            final(self).inner.seed() == old(self).inner.seed(),
            final(self).inner.position() == advance(old(self).inner.position(), 1),
            final(self).generated == count_up(old(self).generated),
            final(self).step == old(self).step,
            final(self).role == old(self).role,
    {
        self.generated = increment(self.generated);
        self.inner.next_u64()
    }

    /// The next 32-bit value of the stream: the low half of the next 64-bit
    /// value.
    pub fn next_u32(&mut self) -> (r: u32)
        ensures
            r as int == old(self).inner.upcoming(0) % 0x1_0000_0000,
            final(self).inner.seed() == old(self).inner.seed(),
            final(self).inner.position() == advance(old(self).inner.position(), 1),
            final(self).generated == count_up(old(self).generated),
            final(self).step == old(self).step,
            final(self).role == old(self).role,
    {
        let v = self.next_u64();
        (v % 0x1_0000_0000) as u32
    }
}

} // verus!
