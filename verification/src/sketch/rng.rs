//! The random generator of a canvas.
//!
//! The generator is xoshiro256** from the crate `rand_xoshiro`. The type
//! declarations, the names without a body and the functions marked
//! `external_body` in this file are taken on trust: each states what the
//! generator's source shows, and the canvas is verified against these
//! statements.

use vstd::prelude::*;
use rand::Rng;
use rand::RngCore;
use rand::SeedableRng;
use rand_xoshiro::Xoshiro256StarStar;

verus! {

/// The generator that a canvas draws from.
pub type MyRng = Xoshiro256StarStar;

/// `rand_xoshiro::Xoshiro256StarStar`, carried as an opaque value.
#[verifier::external_type_specification]
#[verifier::external_body]
pub struct ExXoshiro256StarStar(Xoshiro256StarStar);

/// `rand::Error`, the error of a fallible fill, carried as an opaque value.
#[verifier::external_type_specification]
#[verifier::external_body]
pub struct ExRandError(rand::Error);

/// Why random bytes could not be had.
#[derive(Clone, Copy, Debug, PartialEq, Eq)]
pub enum RngError {
    /// The generator reported a failure of its source.
    Source,
}

/// The four state words that the generator `g` holds. Everything that the
/// generator will ever return is a function of these words.
pub uninterp spec fn rng_words(g: Xoshiro256StarStar) -> Seq<u64>;

/// The state words of the generator that `Xoshiro256StarStar::seed_from_u64`
/// makes from `seed`. The source derives them from the seed alone.
pub uninterp spec fn seeded_words(seed: u64) -> Seq<u64>;

/// What `next_u64` does to a generator with the state `words`: the number it
/// returns, and the state it leaves behind.
pub uninterp spec fn drawn_u64(words: Seq<u64>) -> (u64, Seq<u64>);

/// What `fill_bytes` does to a generator with the state `words` when it is
/// handed a buffer of `len` bytes: the bytes it writes, and the state it
/// leaves behind.
pub uninterp spec fn drawn_bytes(words: Seq<u64>, len: nat) -> (Seq<u8>, Seq<u64>);

/// Calls `rand::thread_rng().gen::<u64>()`. The number comes from the
/// generator that `rand` keeps for the thread, which the operating system
/// seeds: nothing is claimed of it.
#[verifier::external_body]
pub(crate) fn fresh_seed() -> u64 {
    rand::thread_rng().gen::<u64>()
}

/// Calls `Xoshiro256StarStar::seed_from_u64`, which runs SplitMix64 on
/// `seed` and takes the state from it: the same seed gives the same state.
#[verifier::external_body]
pub(crate) fn seeded(seed: u64) -> (g: Xoshiro256StarStar)
    ensures
        rng_words(g) == seeded_words(seed),
{
    Xoshiro256StarStar::seed_from_u64(seed)
}

/// Calls `Xoshiro256StarStar::next_u64`, which computes its result and the
/// next state from the state alone.
#[verifier::external_body]
pub(crate) fn next_u64(g: &mut Xoshiro256StarStar) -> (r: u64)
    ensures
        r == drawn_u64(rng_words(*old(g))).0,
        rng_words(*final(g)) == drawn_u64(rng_words(*old(g))).1,
{
    g.next_u64()
}

/// Calls `Xoshiro256StarStar::next_u32`, which the source defines as the
/// upper half of what `next_u64` returns.
#[verifier::external_body]
pub(crate) fn next_u32(g: &mut Xoshiro256StarStar) -> (r: u32)
    ensures
        r == drawn_u64(rng_words(*old(g))).0 / 0x1_0000_0000,
        rng_words(*final(g)) == drawn_u64(rng_words(*old(g))).1,
{
    g.next_u32()
}

/// Calls `Xoshiro256StarStar::fill_bytes`, which overwrites every byte of
/// `dest` with bytes computed from the state and the length of `dest` alone.
#[verifier::external_body]
pub(crate) fn fill_bytes(g: &mut Xoshiro256StarStar, dest: &mut [u8])
    ensures
        final(dest)@.len() == old(dest)@.len(),
        final(dest)@ == drawn_bytes(rng_words(*old(g)), old(dest)@.len()).0,
        rng_words(*final(g)) == drawn_bytes(rng_words(*old(g)), old(dest)@.len()).1,
{
    g.fill_bytes(dest)
}

/// Calls `Xoshiro256StarStar::try_fill_bytes`, which the source defines as
/// `fill_bytes` followed by `Ok(())`: it never fails.
#[verifier::external_body]
pub(crate) fn try_fill_bytes(g: &mut Xoshiro256StarStar, dest: &mut [u8]) -> (r: Result<
    (),
    rand::Error,
>)
    ensures
        r is Ok,
        final(dest)@.len() == old(dest)@.len(),
        final(dest)@ == drawn_bytes(rng_words(*old(g)), old(dest)@.len()).0,
        rng_words(*final(g)) == drawn_bytes(rng_words(*old(g)), old(dest)@.len()).1,
{
    g.try_fill_bytes(dest)
}

/// The first `n` numbers that `next_u64` returns, one call after the other,
/// from a generator with the state `words`.
pub open spec fn stream_u64(words: Seq<u64>, n: nat) -> Seq<u64>
    decreases n,
{
    if n == 0 {
        Seq::empty()
    } else {
        seq![drawn_u64(words).0] + stream_u64(drawn_u64(words).1, (n - 1) as nat)
    }
}

/// Generators in the same state return the same numbers. In particular two
/// generators made from the same seed do, for as long as one draws.
pub proof fn lemma_same_seed_same_draws(seed: u64, a: Seq<u64>, b: Seq<u64>, n: nat)
    requires
        a == seeded_words(seed),
        b == seeded_words(seed),
    ensures
        stream_u64(a, n) == stream_u64(b, n),
        drawn_u64(a) == drawn_u64(b),
        forall|len: nat| drawn_bytes(a, len) == drawn_bytes(b, len),
{
}

/// The stream is what `next_u64` returns call after call: its first number
/// is the next draw, and the rest is the stream of the state left behind.
pub proof fn lemma_stream_unfolds(words: Seq<u64>, n: nat)
    ensures
        stream_u64(words, n + 1).len() == n + 1,
        stream_u64(words, n + 1)[0] == drawn_u64(words).0,
        stream_u64(words, n + 1).skip(1) == stream_u64(drawn_u64(words).1, n),
    decreases n,
{
    let rest = stream_u64(drawn_u64(words).1, n);
    if n > 0 {
        lemma_stream_unfolds(drawn_u64(words).1, (n - 1) as nat);
    }
    assert(stream_u64(words, n + 1) == seq![drawn_u64(words).0] + rest);
    assert(stream_u64(words, n + 1).skip(1) =~= rest);
}

} // verus!
