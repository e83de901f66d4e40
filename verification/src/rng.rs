//! The random engine: a 64-bit congruential generator with a permuted
//! 32-bit output, and the draws derived from it.

use vstd::prelude::*;

verus! {

/// Multiplier of the state transition.
pub const MULTIPLIER: u64 = 6364136223846793005u64;

/// Increment of the state transition.
pub const INCREMENT: u64 = 1442695040888963407u64;

/// Most words a single bounded draw will take before it settles for the
/// last one. A rejected word has probability below one half, so a run of
/// this length is out of the question for any generator worth the name; the
/// cap is there to make the draw a total function.
pub const MAX_DRAWS: u64 = 0xffff_ffff_ffff_ffffu64;

/// The state that follows `state`.
#[verifier::opaque]
pub open spec fn step(state: u64) -> u64 {
    state.wrapping_mul(MULTIPLIER).wrapping_add(INCREMENT)
}

/// The 32-bit word that a state gives out: the xor-shifted middle bits,
/// rotated right by the top five bits.
#[verifier::opaque]
pub open spec fn output(state: u64) -> u32 {
    let rot: u32 = (state >> 59u64) as u32;
    let xsh: u32 = ((((state >> 18u64) ^ state) >> 27u64) & 0xffff_ffffu64) as u32;
    let back: u32 = if rot == 0 {
        0u32
    } else {
        (32 - rot) as u32
    };
    (xsh >> rot) | (xsh << back)
}

/// The state after `n` transitions from `state`.
pub open spec fn advance(state: u64, n: nat) -> u64
    decreases n,
{
    if n == 0 {
        state
    } else {
        step(advance(state, (n - 1) as nat))
    }
}

/// The `k`-th word drawn from a generator in `state`, counting from 1.
pub open spec fn word(state: u64, k: nat) -> u32 {
    output(advance(state, k))
}

/// The state that a seed stands for: the seed, sign-extended to 64 bits.
pub open spec fn seed_state(seed: i32) -> u64 {
    if seed >= 0 {
        seed as u64
    } else {
        (0x1_0000_0000_0000_0000 + seed) as u64
    }
}

/// The rejection threshold of a bound: words below it are drawn again, so
/// that the words that remain fall into whole blocks of `bound`.
pub open spec fn threshold(bound: u32) -> u32
    recommends
        bound > 0,
{
    ((0x1_0000_0000 - bound) % (bound as int)) as u32
}

/// How many words a bounded draw takes from `state`: up to and including
/// the first one that is not below `threshold`, and no more than `limit`.
pub open spec fn draws_needed(state: u64, threshold: u32, limit: nat) -> nat
    decreases limit,
{
    if limit <= 1 || output(step(state)) >= threshold {
        1
    } else {
        1 + draws_needed(step(state), threshold, (limit - 1) as nat)
    }
}

/// The width of the closed range `min..=max`.
pub open spec fn span(min: i32, max: i32) -> int {
    max - min + 1
}

/// The generator. Its whole state is one 64-bit word.
#[derive(Clone, Copy, Debug)]
pub struct SggPcg {
    pub state: u64,
}

impl SggPcg {
    /// A generator in the state that `seed` stands for. Nothing of an
    /// earlier generator enters into it.
    pub fn new(seed: u64) -> (rng: Self)
        ensures
            rng.state == seed,
    {
        SggPcg { state: seed }
    }

    /// A generator seeded with a signed 32-bit value, widened with its sign.
    pub fn from_seed(seed: i32) -> (rng: Self)
        ensures
            rng.state == seed_state(seed),
    {
        let wide: i64 = seed as i64;
        let state: u64 = if wide >= 0 {
            wide as u64
        } else {
            let below: u64 = (-wide) as u64;
            0xffff_ffff_ffff_ffffu64 - below + 1
        };
        SggPcg { state }
    }

    /// Replaces the state by the one that `seed` stands for.
    pub fn reseed(&mut self, seed: i32)
        ensures
            final(self).state == seed_state(seed),
    {
        let fresh = SggPcg::from_seed(seed);
        self.state = fresh.state;
    }

    /// Replaces the state by the one that the seed stands for; a seed that
    /// was left out counts as 0.
    pub fn reseed_or_default(&mut self, seed: Option<i32>)
        ensures
            final(self).state == seed_state(
                match seed {
                    Some(s) => s,
                    None => 0i32,
                },
            ),
    {
        match seed {
            Some(s) => self.reseed(s),
            None => self.reseed(0),
        }
    }

    /// Moves to the next state and gives out its word.
    pub fn next_u32(&mut self) -> (w: u32)
        ensures
            final(self).state == step(old(self).state),
            w == output(final(self).state),
            w == word(old(self).state, 1),
    {
        let next: u64 = self.state.wrapping_mul(MULTIPLIER).wrapping_add(INCREMENT);
        self.state = next;
        let top: u64 = next >> 59u64;
        let mid: u64 = (((next >> 18u64) ^ next) >> 27u64) & 0xffff_ffffu64;
        assert(top < 32) by (bit_vector)
            requires
                top == next >> 59u64,
        ;
        assert(mid <= 0xffff_ffffu64) by (bit_vector)
            requires
                mid == (((next >> 18u64) ^ next) >> 27u64) & 0xffff_ffffu64,
        ;
        let rot: u32 = top as u32;
        let xsh: u32 = mid as u32;
        let back: u32 = if rot == 0 {
            0u32
        } else {
            32u32 - rot
        };
        proof {
            reveal(step);
            reveal(output);
            reveal_with_fuel(advance, 2);
        }
        (xsh >> rot) | (xsh << back)
    }
}

/// An unbiased draw from `0..bound`.
///
/// Words are drawn until one is not below the threshold of `bound`, or
/// until `MAX_DRAWS` of them were drawn; the result is the last word drawn,
/// reduced by `bound`. The generator ends in the state of that word.
pub fn bounded(rng: &mut SggPcg, bound: u32) -> (r: u32)
    requires
        bound > 0,
    ensures
        final(rng).state == advance(
            old(rng).state,
            draws_needed(old(rng).state, threshold(bound), MAX_DRAWS as nat),
        ),
        r == output(final(rng).state) % bound,
        r < bound,
{
    let limit: u32 = (u32::MAX - bound + 1) % bound;
    let ghost start: u64 = rng.state;
    let mut left: u64 = MAX_DRAWS;
    loop
        invariant
            bound > 0,
            start == old(rng).state,
            limit == threshold(bound),
            1 <= left <= MAX_DRAWS,
            rng.state == advance(start, (MAX_DRAWS - left) as nat),
            draws_needed(start, limit, MAX_DRAWS as nat) == (MAX_DRAWS - left) + draws_needed(
                rng.state,
                limit,
                left as nat,
            ),
        decreases left,
    {
        let ghost before: u64 = rng.state;
        let w: u32 = rng.next_u32();
        proof {
            assert(advance(start, (MAX_DRAWS - left + 1) as nat) == step(
                advance(start, (MAX_DRAWS - left) as nat),
            ));
            assert(w == output(step(before)));
        }
        if w >= limit || left <= 1 {
            assert(draws_needed(before, limit, left as nat) == 1);
            return w % bound;
        }
        assert(draws_needed(before, limit, left as nat) == 1 + draws_needed(
            rng.state,
            limit,
            (left - 1) as nat,
        ));
        left = left - 1;
    }
}

/// A draw from the closed range `min..=max`.
///
/// An empty or one-point range gives `min` and leaves the generator as it
/// was. Otherwise one bounded draw over the width of the range is added to
/// `min`.
pub fn rand_int(rng: &mut SggPcg, min: i32, max: i32) -> (r: i32)
    requires
        span(min, max) <= 0xffff_ffff,
    ensures
        max <= min ==> r == min && final(rng).state == old(rng).state,
        max > min ==> {
            &&& final(rng).state == advance(
                old(rng).state,
                draws_needed(
                    old(rng).state,
                    threshold(span(min, max) as u32),
                    MAX_DRAWS as nat,
                ),
            )
            &&& r == min + output(final(rng).state) % (span(min, max) as u32)
            &&& min <= r <= max
        },
{
    if max > min {
        let width: i64 = max as i64 - min as i64 + 1;
        let bound: u32 = width as u32;
        let offset: u32 = bounded(rng, bound);
        let sum: i64 = min as i64 + offset as i64;
        sum as i32
    } else {
        min
    }
}

/// The threshold of a bound is the remainder of 2^32 by it: below the
/// bound, and leaving a count of accepted words that the bound divides, so
/// that each residue is the image of equally many accepted words.
pub proof fn lemma_threshold_leaves_whole_blocks(bound: u32)
    requires
        bound > 0,
    ensures
        threshold(bound) < bound,
        threshold(bound) == 0x1_0000_0000int % (bound as int),
        (0x1_0000_0000 - threshold(bound)) % (bound as int) == 0,
{
    let b = bound as int;
    let t = (0x1_0000_0000 - b) % b;
    assert(0 <= t < b) by (nonlinear_arith)
        requires
            b > 0,
            t == (0x1_0000_0000 - b) % b,
    ;
    assert(t == 0x1_0000_0000int % b) by (nonlinear_arith)
        requires
            b > 0,
            t == (0x1_0000_0000 - b) % b,
    ;
    assert((0x1_0000_0000 - t) % b == 0) by (nonlinear_arith)
        requires
            b > 0,
            t == 0x1_0000_0000int % b,
    ;
}

/// Two generators in the same state give the same words, however far one
/// looks ahead: the words are a function of the state alone.
pub proof fn lemma_same_state_same_words(a: SggPcg, b: SggPcg, k: nat)
    requires
        a.state == b.state,
    ensures
        advance(a.state, k) == advance(b.state, k),
        word(a.state, k) == word(b.state, k),
{
}

/// Taking `m` transitions and then `n` is taking `m + n`.
pub proof fn lemma_advance_add(state: u64, m: nat, n: nat)
    ensures
        advance(advance(state, m), n) == advance(state, m + n),
    decreases n,
{
    if n > 0 {
        lemma_advance_add(state, m, (n - 1) as nat);
    }
}

/// The `k`-th word after `m` draws is the word `m + k` of the sequence:
/// consecutive draws walk through one sequence, fixed by the first state.
pub proof fn lemma_word_after(state: u64, m: nat, k: nat)
    ensures
        word(advance(state, m), k) == word(state, m + k),
{
    lemma_advance_add(state, m, k);
}

/// Looking `j` transitions ahead from the next state is looking `j + 1`
/// ahead from this one.
pub proof fn lemma_advance_from_next(state: u64, j: nat)
    ensures
        advance(step(state), j) == advance(state, j + 1),
{
    reveal_with_fuel(advance, 2);
    assert(advance(state, 1) == step(state));
    lemma_advance_add(state, 1, j);
}

/// A bounded draw uses the first word that is not below the threshold:
/// every word before the one it stops at is below it, and the one it stops
/// at is not, unless the cap on the number of words was reached.
pub proof fn lemma_draws_needed_is_first_accepted(state: u64, threshold: u32, limit: nat)
    ensures
        1 <= draws_needed(state, threshold, limit),
        limit >= 1 ==> draws_needed(state, threshold, limit) <= limit,
        forall|k: nat|
            1 <= k < draws_needed(state, threshold, limit) ==> #[trigger] word(state, k)
                < threshold,
        draws_needed(state, threshold, limit) < limit ==> word(
            state,
            draws_needed(state, threshold, limit),
        ) >= threshold,
    decreases limit,
{
    let n = draws_needed(state, threshold, limit);
    reveal_with_fuel(advance, 2);
    assert(word(state, 1) == output(step(state)));
    if limit <= 1 || output(step(state)) >= threshold {
        assert(n == 1);
    } else {
        let next = step(state);
        let m = draws_needed(next, threshold, (limit - 1) as nat);
        lemma_draws_needed_is_first_accepted(next, threshold, (limit - 1) as nat);
        assert(n == 1 + m);
        assert forall|k: nat| 1 <= k < n implies #[trigger] word(state, k) < threshold by {
            if k >= 2 {
                lemma_advance_from_next(state, (k - 1) as nat);
                assert(word(state, k) == word(next, (k - 1) as nat));
            }
        }
        if n < limit {
            lemma_advance_from_next(state, m);
            assert(word(state, n) == word(next, m));
        }
    }
}

/// The number of whole blocks of `bound` words among the accepted words.
pub open spec fn blocks(bound: u32) -> int
    recommends
        bound > 0,
{
    (0x1_0000_0000 - threshold(bound)) / (bound as int)
}

/// The block that an accepted word falls into, counting from the
/// threshold in steps of `bound`.
pub open spec fn block_of(bound: u32, w: u32) -> int
    recommends
        bound > 0,
        w >= threshold(bound),
{
    (w - threshold(bound)) / (bound as int)
}

/// The accepted word of block `j` that reduces to `v`.
pub open spec fn word_in_block(bound: u32, j: int, v: int) -> int {
    let t = threshold(bound) as int;
    t + j * bound + if v >= t {
        v - t
    } else {
        v - t + bound
    }
}

/// Every result is reached equally often: the accepted words fall into
/// `blocks(bound)` blocks, and in each block each value below the bound is
/// the reduction of exactly one word.
pub proof fn lemma_each_value_once_per_block(bound: u32, j: int, v: int)
    requires
        bound > 0,
        0 <= j < blocks(bound),
        0 <= v < bound,
    ensures
        threshold(bound) <= word_in_block(bound, j, v) < 0x1_0000_0000,
        word_in_block(bound, j, v) % (bound as int) == v,
        (word_in_block(bound, j, v) - threshold(bound)) / (bound as int) == j,
        forall|u: u32|
            u >= threshold(bound) && #[trigger] block_of(bound, u) == j && u % bound == v ==> u
                == word_in_block(bound, j, v),
{
    lemma_threshold_leaves_whole_blocks(bound);
    let b = bound as int;
    let t = threshold(bound) as int;
    let q = blocks(bound);
    let d = if v >= t {
        v - t
    } else {
        v - t + b
    };
    let w = word_in_block(bound, j, v);
    assert(w == t + j * b + d);
    assert(q * b == 0x1_0000_0000 - t) by (nonlinear_arith)
        requires
            b > 0,
            q == (0x1_0000_0000 - t) / b,
            (0x1_0000_0000 - t) % b == 0,
    ;
    assert(0 <= j * b && (j + 1) * b <= q * b && (j + 1) * b == j * b + b) by (nonlinear_arith)
        requires
            b > 0,
            0 <= j < q,
    ;
    vstd::arithmetic::div_mod::lemma_fundamental_div_mod_converse(w - t, b, j, d);
    if v >= t {
        vstd::arithmetic::div_mod::lemma_fundamental_div_mod_converse(w, b, j, v);
    } else {
        vstd::arithmetic::div_mod::lemma_fundamental_div_mod_converse(w, b, j + 1, v);
    }
    assert forall|u: u32|
        u >= threshold(bound) && #[trigger] block_of(bound, u) == j && u % bound == v implies u
        == w by {
        let x = u as int;
        let r = (x - t) % b;
        assert(x - t == b * ((x - t) / b) + r && 0 <= r < b) by (nonlinear_arith)
            requires
                b > 0,
                r == (x - t) % b,
        ;
        assert(x == b * (x / b) + v && w == b * (w / b) + v) by (nonlinear_arith)
            requires
                b > 0,
                x % b == v,
                w % b == v,
        ;
        assert(b * ((x - t) / b) == j * b) by (nonlinear_arith)
            requires
                (x - t) / b == j,
        ;
        assert(x / b == w / b) by (nonlinear_arith)
            requires
                b > 0,
                x - w == b * (x / b) - b * (w / b),
                -b < x - w < b,
        ;
    }
}

/// Every accepted word is the one word of its block for its value: none
/// lies outside the blocks.
pub proof fn lemma_accepted_word_has_its_block(bound: u32, u: u32)
    requires
        bound > 0,
        u >= threshold(bound),
    ensures
        0 <= block_of(bound, u) < blocks(bound),
        u == word_in_block(bound, block_of(bound, u), (u % bound) as int),
{
    lemma_threshold_leaves_whole_blocks(bound);
    let b = bound as int;
    let t = threshold(bound) as int;
    let q = blocks(bound);
    let x = u as int;
    let j = block_of(bound, u);
    assert(q * b == 0x1_0000_0000 - t) by (nonlinear_arith)
        requires
            b > 0,
            q == (0x1_0000_0000 - t) / b,
            (0x1_0000_0000 - t) % b == 0,
    ;
    assert(0 <= j < q) by (nonlinear_arith)
        requires
            b > 0,
            j == (x - t) / b,
            0 <= x - t < q * b,
    ;
    lemma_each_value_once_per_block(bound, j, (u % bound) as int);
}

} // verus!
