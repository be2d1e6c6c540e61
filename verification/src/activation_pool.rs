//! The activation-code pool: a bitset over every six-digit code marking the
//! ones handed out, with a free count, from which fresh codes are drawn
//! uniformly at random.
use vstd::prelude::*;

use rand::Rng;

verus! {

/// How many activation codes exist: `0..POOL_SIZE`.
pub const POOL_SIZE: u32 = 1_000_000;

/// Words of the bitset, 64 codes each.
pub const WORD_COUNT: usize = 15_625;

/// Bit `b` of a word.
pub open spec fn bit_of(w: u64, b: int) -> bool {
    (w >> (b as u64)) & 1 == 1
}

/// How many of the low `n` bits of `w` are set.
pub open spec fn ones_low(w: u64, n: int) -> int
    decreases n,
{
    if n <= 0 {
        0
    } else {
        ones_low(w, n - 1) + if bit_of(w, n - 1) { 1int } else { 0int }
    }
}

/// How many of the low `n` bits of `w` are clear.
pub open spec fn zeros_low(w: u64, n: int) -> int {
    n - ones_low(w, n)
}

/// Free codes among the first `k` words.
pub open spec fn zeros_upto(words: Seq<u64>, k: int) -> int
    decreases k,
{
    if k <= 0 {
        0
    } else {
        zeros_upto(words, k - 1) + zeros_low(words[k - 1], 64)
    }
}

/// Whether `code` is marked in the bitset.
pub open spec fn marked(words: Seq<u64>, code: int) -> bool {
    bit_of(words[code / 64], code % 64)
}

/// Free codes below `code`.
pub open spec fn zeros_before(words: Seq<u64>, code: int) -> int {
    zeros_upto(words, code / 64) + zeros_low(words[code / 64], code % 64)
}

/// How many codes below `n` are not marked.
pub open spec fn unmarked_below(words: Seq<u64>, n: int) -> int
    decreases n,
{
    if n <= 0 {
        0
    } else {
        unmarked_below(words, n - 1) + if marked(words, n - 1) {
            0int
        } else {
            1int
        }
    }
}

/// The number of set bits of a word, one bit at a time.
fn count_ones(w: u64) -> (r: u32)
    ensures
        r == ones_low(w, 64),
{
    let mut count: u32 = 0;
    let mut b: u64 = 0;
    while b < 64
        invariant
            b <= 64,
            count == ones_low(w, b as int),
            count <= b,
        decreases 64 - b,
    {
        if (w >> b) & 1 == 1 {
            count = count + 1;
        }
        b = b + 1;
    }
    count
}

/// Draws a code index below `bound` from the operating system's generator:
/// `rand::rngs::OsRng.gen_range(0..bound)`, which samples uniformly from the
/// half-open range; only that the result lies in the range is stated. rand
/// panics on an empty range, hence `bound > 0`; `OsRng` also panics if the
/// operating system cannot supply randomness, which no argument rules out.
#[verifier::external_body]
fn os_random_below(bound: u32) -> (r: u32)
    requires
        bound > 0,
    ensures
        r < bound,
{
    rand::rngs::OsRng.gen_range(0..bound)
}

// ---------------------------------------------------------------------------
// Bit-level lemmas.

proof fn lemma_ones_low_bounds(w: u64, n: int)
    requires
        0 <= n,
    ensures
        0 <= ones_low(w, n) <= n,
    decreases n,
{
    if n > 0 {
        lemma_ones_low_bounds(w, n - 1);
    }
}

/// Only the low `mid` bits survive the mask `(1 << mid) - 1`.
proof fn lemma_masked_ones(w: u64, mid: u64, mask: u64, n: int)
    requires
        mid < 64,
        mask == (1u64 << mid) - 1,
        0 <= n <= 64,
    ensures
        ones_low(w & mask, n) == ones_low(w, if n < mid { n } else { mid as int }),
    decreases n,
{
    if n > 0 {
        lemma_masked_ones(w, mid, mask, n - 1);
        let j = (n - 1) as u64;
        assert(bit_of(w & mask, j as int) == (j < mid && bit_of(w, j as int))) by (bit_vector)
            requires
                mid < 64,
                mask == (1u64 << mid) - 1,
                j < 64,
        ;
    }
}

/// Setting a clear bit adds one set bit at and above its position.
proof fn lemma_set_bit_ones(w: u64, b: u64, n: int)
    requires
        b < 64,
        0 <= n <= 64,
        !bit_of(w, b as int),
    ensures
        ones_low(w | (1u64 << b), n) == ones_low(w, n) + if (b as int) < n { 1int } else { 0int },
    decreases n,
{
    if n > 0 {
        lemma_set_bit_ones(w, b, n - 1);
        let j = (n - 1) as u64;
        assert(bit_of(w | (1u64 << b), j as int) == (bit_of(w, j as int) || j == b)) by (bit_vector)
            requires
                b < 64,
                j < 64,
        ;
    }
}

/// Clearing a set bit removes one set bit at and above its position.
proof fn lemma_clear_bit_ones(w: u64, b: u64, n: int)
    requires
        b < 64,
        0 <= n <= 64,
        bit_of(w, b as int),
    ensures
        ones_low(w & !(1u64 << b), n) == ones_low(w, n) - if (b as int) < n { 1int } else { 0int },
    decreases n,
{
    if n > 0 {
        lemma_clear_bit_ones(w, b, n - 1);
        let j = (n - 1) as u64;
        assert(bit_of(w & !(1u64 << b), j as int) == (bit_of(w, j as int) && j != b)) by (bit_vector)
            requires
                b < 64,
                j < 64,
        ;
    }
}

proof fn lemma_bit_test(w: u64, b: u64)
    requires
        b < 64,
    ensures
        (w & (1u64 << b) == 0) == !bit_of(w, b as int),
        bit_of(w | (1u64 << b), b as int),
        !bit_of(w & !(1u64 << b), b as int),
        forall|j: u64| j < 64 && j != b ==> bit_of(w | (1u64 << b), j as int) == bit_of(w, j as int),
        forall|j: u64| j < 64 && j != b ==> bit_of(w & !(1u64 << b), j as int) == bit_of(w, j as int),
{
    assert((w & (1u64 << b) == 0) == !(((w >> b) & 1) == 1)) by (bit_vector)
        requires
            b < 64,
    ;
    assert(((w | (1u64 << b)) >> b) & 1 == 1) by (bit_vector)
        requires
            b < 64,
    ;
    assert(((w & !(1u64 << b)) >> b) & 1 != 1) by (bit_vector)
        requires
            b < 64,
    ;
    assert forall|j: u64| j < 64 && j != b implies bit_of(w | (1u64 << b), j as int) == bit_of(w, j as int) by {
        assert((((w | (1u64 << b)) >> j) & 1 == 1) == ((w >> j) & 1 == 1)) by (bit_vector)
            requires
                b < 64,
                j < 64,
                j != b,
        ;
    }
    assert forall|j: u64| j < 64 && j != b implies bit_of(w & !(1u64 << b), j as int) == bit_of(w, j as int) by {
        assert((((w & !(1u64 << b)) >> j) & 1 == 1) == ((w >> j) & 1 == 1)) by (bit_vector)
            requires
                b < 64,
                j < 64,
                j != b,
        ;
    }
}

/// Replacing one word changes the free count by that word's difference.
proof fn lemma_zeros_upto_update(words: Seq<u64>, i: int, w: u64, k: int)
    requires
        0 <= i < words.len(),
        0 <= k <= words.len(),
    ensures
        zeros_upto(words.update(i, w), k) == zeros_upto(words, k) + if i < k {
            zeros_low(w, 64) - zeros_low(words[i], 64)
        } else {
            0
        },
    decreases k,
{
    if k > 0 {
        lemma_zeros_upto_update(words, i, w, k - 1);
    }
}

proof fn lemma_zeros_upto_bounds(words: Seq<u64>, k: int)
    requires
        0 <= k <= words.len(),
    ensures
        0 <= zeros_upto(words, k) <= 64 * k,
    decreases k,
{
    if k > 0 {
        lemma_zeros_upto_bounds(words, k - 1);
        lemma_ones_low_bounds(words[k - 1], 64);
    }
}

proof fn lemma_zeros_low_monotone(w: u64, a: int, b: int)
    requires
        0 <= a <= b,
    ensures
        zeros_low(w, a) <= zeros_low(w, b),
    decreases b - a,
{
    if a < b {
        lemma_zeros_low_monotone(w, a, b - 1);
    }
}

// ---------------------------------------------------------------------------
// The pool.

/// The activation-code pool: which codes are handed out, and how many are
/// still free.
pub struct ActivationPool {
    bits: Vec<u64>,
    free: u32,
}

impl ActivationPool {
    /// The bitset covers every code and the free count counts its clear
    /// bits.
    pub closed spec fn wf(&self) -> bool {
        &&& self.bits@.len() == WORD_COUNT
        &&& self.free == zeros_upto(self.bits@, WORD_COUNT as int)
    }

    /// Whether `code` (below [`POOL_SIZE`]) is handed out.
    pub closed spec fn used(&self, code: int) -> bool {
        marked(self.bits@, code)
    }

    pub closed spec fn free_count(&self) -> int {
        self.free as int
    }

    /// How many codes below `n` are not handed out.
    pub closed spec fn unused_below(&self, n: int) -> int {
        unmarked_below(self.bits@, n)
    }

    /// Free codes below `code`, in code order.
    pub closed spec fn free_before(&self, code: int) -> int {
        zeros_before(self.bits@, code)
    }

    /// A pool holding exactly the given codes (those below [`POOL_SIZE`]).
    pub fn init(used_codes: &[u32]) -> (pool: Self)
        ensures
            pool.wf(),
            forall|c: int| 0 <= c < POOL_SIZE ==> (#[trigger] pool.used(c) <==> used_codes@.contains(c as u32)),
    {
        let mut bits: Vec<u64> = Vec::new();
        let mut k: usize = 0;
        while k < WORD_COUNT
            invariant
                0 <= k <= WORD_COUNT,
                bits@.len() == k,
                forall|j: int| 0 <= j < k ==> bits@[j] == 0,
            decreases WORD_COUNT - k,
        {
            bits.push(0);
            k += 1;
        }
        assert forall|j: int| 0 <= j < WORD_COUNT implies zeros_low(#[trigger] bits@[j], 64) == 64 by {
            assert forall|b: u64| b < 64 implies !bit_of(0u64, b as int) by {
                assert((0u64 >> b) & 1 != 1) by (bit_vector);
            }
            lemma_zero_word_ones(64);
        }
        proof {
            lemma_zeros_upto_full(bits@, WORD_COUNT as int);
        }
        assert forall|s: u64| s < 64 implies !bit_of(0u64, s as int) by {
            assert((0u64 >> s) & 1 != 1) by (bit_vector);
        }
        assert forall|c: int| 0 <= c < POOL_SIZE implies !marked(bits@, c) by {
            let s = (c % 64) as u64;
            assert(!bit_of(0u64, s as int));
        }
        assert(used_codes@.take(0) =~= Seq::<u32>::empty());
        let mut pool = ActivationPool { bits, free: POOL_SIZE };
        let mut i: usize = 0;
        while i < used_codes.len()
            invariant
                0 <= i <= used_codes@.len(),
                pool.wf(),
                forall|c: int| 0 <= c < POOL_SIZE ==> (#[trigger] pool.used(c) <==> used_codes@.take(i as int).contains(c as u32)),
            decreases used_codes@.len() - i,
        {
            let code = used_codes[i];
            proof {
                assert(used_codes@.take(i + 1) =~= used_codes@.take(i as int).push(code));
            }
            if code < POOL_SIZE {
                pool.mark(code);
            }
            proof {
                assert forall|c: int| 0 <= c < POOL_SIZE implies (#[trigger] pool.used(c) <==> used_codes@.take(i + 1).contains(c as u32)) by {
                    if used_codes@.take(i + 1).contains(c as u32) && c as u32 != code {
                        let k = choose|k: int| 0 <= k < i + 1 && #[trigger] used_codes@.take(i + 1)[k] == c as u32;
                        assert(used_codes@.take(i as int)[k] == c as u32);
                    }
                    if c as u32 == code {
                        assert(used_codes@.take(i + 1)[i as int] == code);
                    }
                }
            }
            i += 1;
        }
        assert(used_codes@.take(used_codes@.len() as int) =~= used_codes@);
        pool
    }

    /// Mark a code as handed out (a no-op when it already is).
    fn mark(&mut self, code: u32)
        requires
            old(self).wf(),
            code < POOL_SIZE,
        ensures
            final(self).wf(),
            forall|c: int| 0 <= c < POOL_SIZE ==> (#[trigger] final(self).used(c) <==> (old(self).used(c) || c == code)),
            final(self).free_count() == old(self).free_count() - if old(self).used(code as int) { 0int } else { 1int },
    {
        let idx = (code / 64) as usize;
        let shift = (code % 64) as u64;
        let bit: u64 = 1u64 << shift;
        let word = self.bits[idx];
        proof {
            lemma_bit_test(word, shift);
        }
        if word & bit == 0 {
            let marked_word = word | bit;
            proof {
                lemma_set_bit_ones(word, shift, 64);
                lemma_zeros_upto_update(self.bits@, idx as int, marked_word, WORD_COUNT as int);
                lemma_zeros_upto_bounds(self.bits@.update(idx as int, marked_word), WORD_COUNT as int);
            }
            self.bits.set(idx, marked_word);
            self.free = self.free - 1;
            proof {
                self.lemma_one_word_changed(old(self), idx as int, shift);
            }
        }
    }

    /// After one word changed at one bit, every other code keeps its mark.
    proof fn lemma_one_word_changed(&self, before: &Self, idx: int, shift: u64)
        requires
            before.bits@.len() == WORD_COUNT,
            self.bits@ == before.bits@.update(idx, self.bits@[idx]),
            0 <= idx < WORD_COUNT,
            shift < 64,
            forall|j: u64| j < 64 && j != shift ==> bit_of(self.bits@[idx], j as int) == bit_of(before.bits@[idx], j as int),
        ensures
            forall|c: int| 0 <= c < POOL_SIZE && c != idx * 64 + shift ==> #[trigger] self.used(c) == before.used(c),
    {
        assert forall|c: int| 0 <= c < POOL_SIZE && c != idx * 64 + shift implies #[trigger] self.used(c) == before.used(c) by {
            if c / 64 == idx {
                assert((c % 64) as u64 != shift);
                let j = (c % 64) as u64;
                assert(bit_of(self.bits@[idx], j as int) == bit_of(before.bits@[idx], j as int));
            }
        }
    }

    /// Return a code to the pool; codes outside the pool are ignored.
    pub fn discard(&mut self, code: u32)
        requires
            old(self).wf(),
        ensures
            final(self).wf(),
            forall|c: int| 0 <= c < POOL_SIZE ==> (#[trigger] final(self).used(c) <==> (old(self).used(c) && c != code)),
            final(self).free_count() == old(self).free_count() + if code < POOL_SIZE && old(self).used(code as int) { 1int } else { 0int },
    {
        if code >= POOL_SIZE {
            return;
        }
        let idx = (code / 64) as usize;
        let shift = (code % 64) as u64;
        let bit: u64 = 1u64 << shift;
        let word = self.bits[idx];
        proof {
            lemma_bit_test(word, shift);
        }
        if word & bit != 0 {
            let cleared = word & !bit;
            proof {
                lemma_clear_bit_ones(word, shift, 64);
                lemma_ones_low_bounds(cleared, 64);
                lemma_zeros_upto_update(self.bits@, idx as int, cleared, WORD_COUNT as int);
                lemma_zeros_upto_bounds(self.bits@, WORD_COUNT as int);
                lemma_ones_low_bounds(word, 64);
                assert(zeros_upto(self.bits@, WORD_COUNT as int) < POOL_SIZE) by {
                    lemma_zeros_upto_split(self.bits@, idx as int);
                }
            }
            self.bits.set(idx, cleared);
            self.free = self.free + 1;
            proof {
                self.lemma_one_word_changed(old(self), idx as int, shift);
            }
        }
    }

    /// How many codes are still free.
    pub fn free(&self) -> (n: u32)
        ensures
            n == self.free_count(),
    {
        self.free
    }

    /// Whether `code` is taken; codes outside the pool always are.
    pub fn is_used(&self, code: u32) -> (r: bool)
        requires
            self.wf(),
        ensures
            r == (code >= POOL_SIZE || self.used(code as int)),
    {
        if code >= POOL_SIZE {
            return true;
        }
        let idx = (code / 64) as usize;
        let shift = (code % 64) as u64;
        let bit: u64 = 1u64 << shift;
        proof {
            lemma_bit_test(self.bits@[idx as int], shift);
        }
        self.bits[idx] & bit != 0
    }

    /// Hand out a uniformly random free code.
    pub fn draw(&mut self) -> (code: u32)
        requires
            old(self).wf(),
            old(self).free_count() > 0,
        ensures
            final(self).wf(),
            code < POOL_SIZE,
            !old(self).used(code as int),
            forall|c: int| 0 <= c < POOL_SIZE ==> (#[trigger] final(self).used(c) <==> (old(self).used(c) || c == code)),
            final(self).free_count() == old(self).free_count() - 1,
    {
        let n = os_random_below(self.free);
        let code = self.select_zero(n);
        self.mark(code);
        code
    }

    /// The `n`-th free code in code order (counting from zero): the code
    /// [`Self::draw`] hands out for the index its random draw landed on.
    pub fn select_zero(&self, n: u32) -> (code: u32)
        requires
            self.wf(),
            n < self.free_count(),
        ensures
            code < POOL_SIZE,
            !self.used(code as int),
            self.free_before(code as int) == n,
    {
        let mut remaining = n;
        let mut i: usize = 0;
        while i < WORD_COUNT
            invariant
                0 <= i <= WORD_COUNT,
                self.wf(),
                remaining + zeros_upto(self.bits@, i as int) == n,
                n < zeros_upto(self.bits@, WORD_COUNT as int),
            decreases WORD_COUNT - i,
        {
            let word = self.bits[i];
            proof {
                lemma_ones_low_bounds(word, 64);
            }
            let zeros = 64 - count_ones(word);
            if remaining < zeros {
                let pos = nth_zero_bit(word, remaining);
                let code = (i * 64 + pos as usize) as u32;
                proof {
                    assert(code as int / 64 == i as int && code as int % 64 == pos as int) by (nonlinear_arith)
                        requires
                            code == i * 64 + pos,
                            pos < 64,
                    ;
                }
                return code;
            }
            remaining = remaining - zeros;
            i += 1;
        }
        proof {
            assert(false);
        }
        0
    }
}

proof fn lemma_zero_word_ones(n: int)
    requires
        0 <= n <= 64,
        forall|b: u64| b < 64 ==> !bit_of(0u64, b as int),
    ensures
        ones_low(0u64, n) == 0,
    decreases n,
{
    if n > 0 {
        lemma_zero_word_ones(n - 1);
        assert(!bit_of(0u64, ((n - 1) as u64) as int));
    }
}

proof fn lemma_zeros_upto_full(words: Seq<u64>, k: int)
    requires
        0 <= k <= words.len(),
        forall|j: int| 0 <= j < words.len() ==> zeros_low(#[trigger] words[j], 64) == 64,
    ensures
        zeros_upto(words, k) == 64 * k,
    decreases k,
{
    if k > 0 {
        lemma_zeros_upto_full(words, k - 1);
    }
}

/// The free count of the whole set is below the pool size while word `i`
/// holds a set bit.
proof fn lemma_zeros_upto_split(words: Seq<u64>, i: int)
    requires
        words.len() == WORD_COUNT,
        0 <= i < WORD_COUNT,
        ones_low(words[i], 64) >= 1,
    ensures
        zeros_upto(words, WORD_COUNT as int) < POOL_SIZE,
{
    lemma_zeros_upto_drop(words, i, WORD_COUNT as int);
}

proof fn lemma_zeros_upto_drop(words: Seq<u64>, i: int, k: int)
    requires
        0 <= i < k <= words.len(),
        ones_low(words[i], 64) >= 1,
    ensures
        zeros_upto(words, k) <= 64 * k - 1,
    decreases k,
{
    lemma_zeros_upto_bounds(words, k - 1);
    lemma_ones_low_bounds(words[k - 1], 64);
    if k - 1 > i {
        lemma_zeros_upto_drop(words, i, k - 1);
    }
}

/// The position of the `n`-th clear bit of `word`, by binary search on the
/// clear bits below each candidate.
fn nth_zero_bit(word: u64, n: u32) -> (pos: u32)
    requires
        n < zeros_low(word, 64),
    ensures
        pos < 64,
        !bit_of(word, pos as int),
        zeros_low(word, pos as int) == n,
{
    let mut lo: u64 = 0;
    let mut hi: u64 = 64;
    while lo < hi
        invariant
            0 <= lo <= hi <= 64,
            zeros_low(word, hi as int) > n,
            forall|k: int| 0 <= k < lo ==> zeros_low(word, k) <= n,
        decreases hi - lo,
    {
        let mid = (lo + hi) / 2;
        assert(1u64 << mid >= 1) by (bit_vector)
            requires
                mid < 64,
        ;
        let mask = (1u64 << mid) - 1;
        proof {
            lemma_masked_ones(word, mid, mask, 64);
            lemma_ones_low_bounds(word, mid as int);
        }
        let zeros_in_prefix = mid - count_ones(word & mask) as u64;
        if zeros_in_prefix > n as u64 {
            hi = mid;
        } else {
            proof {
                assert forall|k: int| 0 <= k < mid + 1 implies zeros_low(word, k) <= n by {
                    lemma_zeros_low_monotone(word, k, mid as int);
                }
            }
            lo = mid + 1;
        }
    }
    proof {
        assert(zeros_low(word, 0) == 0);
        assert(lo >= 1);
        assert(zeros_low(word, lo - 1) <= n);
        assert(ones_low(word, lo as int) == ones_low(word, lo - 1) + if bit_of(word, lo - 1) { 1int } else { 0int });
    }
    (lo - 1) as u32
}


/// One more code counts one more free code exactly when it is unmarked.
proof fn lemma_zeros_before_step(words: Seq<u64>, c: int)
    requires
        0 <= c < words.len() * 64,
    ensures
        zeros_before(words, c + 1) == zeros_before(words, c) + if marked(words, c) {
            0int
        } else {
            1int
        },
{
    let q = c / 64;
    let r = c % 64;
    assert(c == 64 * q + r && 0 <= r < 64);
    if r < 63 {
        assert((c + 1) / 64 == q && (c + 1) % 64 == r + 1);
        assert(ones_low(words[q], r + 1) == ones_low(words[q], r) + if bit_of(words[q], r) { 1int } else { 0int });
    } else {
        assert((c + 1) / 64 == q + 1 && (c + 1) % 64 == 0);
        assert(zeros_upto(words, q + 1) == zeros_upto(words, q) + zeros_low(words[q], 64));
        assert(ones_low(words[q], 64) == ones_low(words[q], 63) + if bit_of(words[q], 63) { 1int } else { 0int });
    }
}

proof fn lemma_zeros_before_counts_unmarked(words: Seq<u64>, n: int)
    requires
        0 <= n <= words.len() * 64,
    ensures
        zeros_before(words, n) == unmarked_below(words, n),
    decreases n,
{
    if n == 0 {
        assert(zeros_before(words, 0) == zeros_upto(words, 0) + zeros_low(words[0], 0));
    } else {
        lemma_zeros_before_counts_unmarked(words, n - 1);
        lemma_zeros_before_step(words, n - 1);
    }
}

/// The free count is exactly the number of codes not handed out.
pub proof fn lemma_free_count_is_unused(pool: ActivationPool)
    requires
        pool.wf(),
    ensures
        pool.free_count() == pool.unused_below(POOL_SIZE as int),
{
    let words = pool.bits@;
    lemma_zeros_before_counts_unmarked(words, POOL_SIZE as int);
    assert((POOL_SIZE as int) / 64 == WORD_COUNT as int && (POOL_SIZE as int) % 64 == 0);
    assert(zeros_before(words, POOL_SIZE as int) == zeros_upto(words, WORD_COUNT as int) + zeros_low(words[WORD_COUNT as int], 0));
}
} // verus!
