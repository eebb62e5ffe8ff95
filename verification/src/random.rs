//! The stream of random draws that one replicate consumes.
//!
//! The generator itself is `rand`'s `StdRng`. Nothing here is proved of the
//! values it hands out beyond the ranges and memberships that `rand`
//! documents; every caller is verified for whatever value comes back.

use rand::rngs::StdRng;
use rand::seq::{IndexedRandom, SliceRandom};
use rand::{Rng, SeedableRng};
use vstd::prelude::*;

use crate::fixed::SCALE;

verus! {

/// `rand::rngs::StdRng`, carried as an opaque value: nothing is known of
/// its state.
#[verifier::external_type_specification]
#[verifier::external_body]
pub struct ExStdRng(StdRng);

/// A seeded stream of random draws, owned by a single replicate.
pub struct RandomSource {
    rng: StdRng,
}

/// `SeedableRng::seed_from_u64` for `StdRng`: the generator made from
/// `seed`. Nothing is claimed of it.
#[verifier::external_body]
fn seeded(seed: u64) -> StdRng {
    StdRng::seed_from_u64(seed)
}

/// `Rng::random_range` on the half-open range from zero to `bound`: the
/// value lies in that range. The range must not be empty, since
/// `random_range` panics on an empty one.
#[verifier::external_body]
fn draw_below(rng: &mut StdRng, bound: u64) -> (r: u64)
    requires
        bound > 0,
    ensures
        r < bound,
{
    rng.random_range(0..bound)
}

/// `SliceRandom::shuffle`: the slice is rearranged in place by swaps, so it
/// holds the same items as before, each as often as before.
#[verifier::external_body]
fn shuffle_in_place(rng: &mut StdRng, items: &mut Vec<usize>)
    ensures
        final(items)@.to_multiset() == old(items)@.to_multiset(),
{
    items.shuffle(rng)
}

/// `IndexedRandom::choose`: `None` for an empty slice, otherwise one of the
/// slice's items.
#[verifier::external_body]
fn choose_one(rng: &mut StdRng, items: &Vec<usize>) -> (r: Option<usize>)
    ensures
        r is None <==> items@.len() == 0,
        r is Some ==> items@.contains(r->0),
{
    items.choose(rng).copied()
}

impl RandomSource {
    /// Starts the stream that belongs to `seed`.
    pub fn new(seed: u64) -> (source: RandomSource) {
        RandomSource { rng: seeded(seed) }
    }

    /// Draws an integer below `bound`.
    pub fn below(&mut self, bound: u64) -> (r: u64)
        requires
            bound > 0,
        ensures
            r < bound,
    {
        draw_below(&mut self.rng, bound)
    }

    /// Draws a fraction of 1.0: a quantity from zero up to, but not
    /// including, [`SCALE`].
    pub fn unit(&mut self) -> (r: i64)
        ensures
            0 <= r < SCALE,
    {
        let raw: u64 = draw_below(&mut self.rng, SCALE as u64);
        raw as i64
    }

    /// Rearranges `items` in place. The result is a permutation of what
    /// was there: same length, same items, and no item doubled that was
    /// not doubled before.
    pub fn shuffle(&mut self, items: &mut Vec<usize>)
        ensures
            final(items)@.to_multiset() == old(items)@.to_multiset(),
            final(items)@.len() == old(items)@.len(),
            forall|i: int|
                0 <= i < final(items)@.len() ==> old(items)@.contains(#[trigger] final(items)@[i]),
            forall|i: int|
                0 <= i < old(items)@.len() ==> final(items)@.contains(#[trigger] old(items)@[i]),
            old(items)@.no_duplicates() ==> final(items)@.no_duplicates(),
    {
        let ghost before = items@;
        shuffle_in_place(&mut self.rng, items);
        proof {
            let after = items@;
            before.to_multiset_ensures();
            after.to_multiset_ensures();
            assert forall|i: int| 0 <= i < after.len() implies before.contains(
                #[trigger] after[i],
            ) by {
                assert(after.contains(after[i]));
                assert(after.to_multiset().count(after[i]) > 0);
            }
            assert forall|i: int| 0 <= i < before.len() implies after.contains(
                #[trigger] before[i],
            ) by {
                assert(before.contains(before[i]));
                assert(before.to_multiset().count(before[i]) > 0);
            }
            if before.no_duplicates() {
                before.lemma_multiset_has_no_duplicates();
                after.lemma_multiset_has_no_duplicates_conv();
            }
        }
    }

    /// Picks one of `items`, or nothing where there are none.
    pub fn pick(&mut self, items: &Vec<usize>) -> (r: Option<usize>)
        ensures
            r is None <==> items@.len() == 0,
            r is Some ==> items@.contains(r->0),
    {
        choose_one(&mut self.rng, items)
    }
}

} // verus!
