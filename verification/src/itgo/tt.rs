//! Transposition table and the Zobrist keys that index it.

use vstd::prelude::*;

use rand::{Rng, SeedableRng};

verus! {

/// The key mixed into a position's hash when the side to move changes.
pub const HASH_STM: u64 = 0x0d0575c6271b1089;

/// The first `len` words that ChaCha20, seeded by `seed` through `seed_from_u64`, fills a slice with.
pub uninterp spec fn chacha20_words(seed: u64, len: nat) -> Seq<u64>;

/// Calls `rand_chacha::ChaCha20Rng::seed_from_u64(seed)` and then `rand::Rng::fill` on a slice of
/// `len` words.
///
/// Claimed: the result has `len` words and depends on `seed` and `len` alone (the generator is
/// deterministic for a given seed); which words they are is left unsaid.
#[verifier::external_body]
fn chacha20_fill(seed: u64, len: usize) -> (r: Vec<u64>)
    ensures
        r@ == chacha20_words(seed, len as nat),
        r@.len() == len,
{
    let mut words = vec![0u64; len];
    rand_chacha::ChaCha20Rng::seed_from_u64(seed).fill(&mut words[..]);
    words
}

/// Zobrist keys: for each side, one key per square for a migo and one for a yugo.
pub struct HashKeys {
    keys: Vec<u64>,
}

impl View for HashKeys {
    type V = Seq<u64>;

    closed spec fn view(&self) -> Seq<u64> {
        self.keys@
    }
}

/// Where the key of a piece lies: the side's half, then migos before yugos.
pub open spec fn key_index(side: int, yugo: bool, sq: int) -> int {
    side * 128 + (if yugo {
        64int
    } else {
        0int
    }) + sq
}

impl HashKeys {
    #[verifier::type_invariant]
    spec fn inv(self) -> bool {
        self.keys@.len() == 256
    }

    /// The keys drawn from ChaCha20 seeded with 0.
    pub fn new() -> (r: HashKeys)
        ensures
            r@ == chacha20_words(0, 256),
            r@.len() == 256,
    {
        HashKeys { keys: chacha20_fill(0, 256) }
    }

    pub fn len_is(&self)
        ensures
            self@.len() == 256,
    {
        proof {
            use_type_invariant(self);
        }
    }

    /// The key of a migo (`yugo == false`) or yugo of side `side` (0 or 1) on `sq`.
    pub fn key(&self, side: u8, yugo: bool, sq: u8) -> (r: u64)
        requires
            side < 2,
            sq < 64,
        ensures
            r == self@[key_index(side as int, yugo, sq as int)],
    {
        proof {
            use_type_invariant(self);
        }
        let base: usize = if yugo {
            64
        } else {
            0
        };
        self.keys[side as usize * 128 + base + sq as usize]
    }
}

/// One slot: the best move found and a signature of the position.
#[derive(Debug, Clone, Copy, PartialEq, Eq, Structural)]
pub struct Entry {
    pub mv: u8,
    pub sig: u8,
}

impl Entry {
    /// An empty slot.
    pub fn new() -> (r: Entry)
        ensures
            r == (Entry { mv: 0, sig: 0 }),
    {
        Entry { mv: 0, sig: 0 }
    }
}

impl Default for Entry {
    fn default() -> (r: Entry)
        ensures
            r == (Entry { mv: 0, sig: 0 }),
    {
        Entry::new()
    }
}

/// A hash-indexed table of entries.
pub struct Table {
    pub raw: Vec<Entry>,
}

/// The slot that `hash` selects among `len`: the high word of `hash * len`.
pub open spec fn spec_to_index(hash: u64, len: int) -> int {
    (hash * len) / 0x1_0000_0000_0000_0000
}

/// The slot is within the table.
pub proof fn lemma_to_index_range(hash: u64, len: int)
    requires
        0 < len < 0x1_0000_0000_0000_0000,
    ensures
        0 <= spec_to_index(hash, len) < len,
{
    assert(0 <= (hash * len) / 0x1_0000_0000_0000_0000 < len) by (nonlinear_arith)
        requires
            0 <= hash < 0x1_0000_0000_0000_0000,
            0 < len < 0x1_0000_0000_0000_0000,
    ;
}

/// `len` empty slots.
pub open spec fn all_empty(s: Seq<Entry>, len: int) -> bool {
    &&& s.len() == len
    &&& forall|i: int| 0 <= i < len ==> s[i] == (Entry { mv: 0, sig: 0 })
}

/// A read after a write of the same hash gives back what was written; a read of a hash whose
/// slot differs gives what was there before.
pub proof fn law_get_after_store(raw: Seq<Entry>, hash: u64, mv: u8, sig: u8, other: u64)
    requires
        0 < raw.len() < 0x1_0000_0000_0000_0000,
    ensures
        ({
            let len = raw.len() as int;
            let written = raw.update(spec_to_index(hash, len), Entry { mv, sig });
            &&& written.len() == raw.len()
            &&& written[spec_to_index(hash, len)] == (Entry { mv, sig })
            &&& spec_to_index(other, len) != spec_to_index(hash, len) ==> written[spec_to_index(
                other,
                len,
            )] == raw[spec_to_index(other, len)]
        }),
{
    lemma_to_index_range(hash, raw.len() as int);
    lemma_to_index_range(other, raw.len() as int);
}

impl Table {
    /// A table of `len` empty slots.
    pub fn new(len: usize) -> (r: Table)
        ensures
            all_empty(r.raw@, len as int),
    {
        let mut raw: Vec<Entry> = Vec::new();
        let mut i: usize = 0;
        while i < len
            invariant
                i <= len,
                all_empty(raw@, i as int),
            decreases len - i,
        {
            raw.push(Entry::new());
            i += 1;
        }
        Table { raw }
    }

    /// Replace the table by `new_len` empty slots.
    pub fn resize(&mut self, new_len: usize)
        ensures
            all_empty(final(self).raw@, new_len as int),
    {
        *self = Table::new(new_len);
    }

    /// Empty every slot, keeping the size.
    pub fn clear(&mut self)
        ensures
            all_empty(final(self).raw@, old(self).raw@.len() as int),
    {
        let len = self.raw.len();
        self.resize(len);
    }

    /// The slot for `hash`.
    pub fn to_index(&self, hash: u64) -> (r: usize)
        ensures
            r == spec_to_index(hash, self.raw@.len() as int),
            self.raw@.len() > 0 ==> r < self.raw@.len(),
    {
        let len = self.raw.len();
        assert(hash * len < 0x1_0000_0000_0000_0000 * 0x1_0000_0000_0000_0000) by (nonlinear_arith)
            requires
                hash < 0x1_0000_0000_0000_0000,
                len < 0x1_0000_0000_0000_0000,
        ;
        let p: u128 = (hash as u128) * (len as u128);
        let hi = p >> 64u32;
        assert(p >> 64u32 == p / 0x1_0000_0000_0000_0000) by (bit_vector);
        assert(hi < len || (len == 0 && hi == 0)) by (nonlinear_arith)
            requires
                hi == p / 0x1_0000_0000_0000_0000,
                p == hash * len,
                hash < 0x1_0000_0000_0000_0000,
                len >= 0,
        ;
        hi as usize
    }

    /// The slot for `hash`.
    pub fn get(&self, hash: u64) -> (r: Entry)
        requires
            self.raw@.len() > 0,
        ensures
            r == self.raw@[spec_to_index(hash, self.raw@.len() as int)],
    {
        let i = self.to_index(hash);
        self.raw[i]
    }

    /// Record a move and signature in the slot for `hash`.
    pub fn store(&mut self, hash: u64, mv: u8, sig: u8)
        requires
            old(self).raw@.len() > 0,
        ensures
            final(self).raw@ == old(self).raw@.update(
                spec_to_index(hash, old(self).raw@.len() as int),
                Entry { mv, sig },
            ),
    {
        let i = self.to_index(hash);
        self.raw.set(i, Entry { mv, sig });
    }
}

} // verus!
