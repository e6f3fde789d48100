//! Cards drawn from a seed.
//!
//! Every draw of an action comes from a generator that is made anew from the
//! seed, so the same seed gives the same cards, in the same order, wherever
//! and whenever the action runs. No generator outlives the call that made it.
//!
//! The generator is `rand_seeder`'s `SipRng` and the draw is `rand`'s
//! `random_range`. What this module states of the two is taken from their
//! sources and is not proved here; the doc comment of each item that states
//! something of them says what.

use vstd::prelude::*;

verus! {

/// The number of ranks among which a card is drawn: the draw picks one of the
/// first twelve of the thirteen ranks.
pub const RANKS_DRAWN: usize = 12;

/// `rand_seeder::SipRng`, a pseudo-random generator whose whole state comes
/// from the bytes it was seeded with. Nothing inside it is visible here.
#[verifier::external_type_specification]
#[verifier::external_body]
pub struct ExSipRng(rand_seeder::SipRng);

/// The bytes that a generator was seeded with.
pub uninterp spec fn rng_seed(rng: rand_seeder::SipRng) -> Seq<u8>;

/// The draws that a generator has made so far: the bound of each, oldest
/// first.
pub uninterp spec fn rng_bounds(rng: rand_seeder::SipRng) -> Seq<nat>;

/// What `rand::Rng::random_range(0..bound)` returns on a `SipRng` that was
/// seeded with `seed` and has made the draws `earlier` before.
pub uninterp spec fn seeded_draw(seed: Seq<u8>, earlier: Seq<nat>, bound: nat) -> nat;

/// Makes a generator from `seed`: `rand_seeder::SipHasher::new`, one
/// `write` of all of `seed`, then `SipHasher::into_rng`.
///
/// The generator that comes back depends on the bytes of `seed` alone: the
/// hasher starts from fixed keys and reads the bytes in little-endian order
/// on every machine. It has made no draw yet. This is stated of the outside
/// functions, not proved.
#[verifier::external_body]
fn seeded_rng(seed: &[u8]) -> (rng: rand_seeder::SipRng)
    ensures
        rng_seed(rng) == seed@,
        rng_bounds(rng) == Seq::<nat>::empty(),
{
    let mut hasher = rand_seeder::SipHasher::new();
    core::hash::Hasher::write(&mut hasher, seed);
    hasher.into_rng()
}

/// One draw: `rand::Rng::random_range(0..bound)` on `rng`.
///
/// The number that comes back is below `bound`, and is fixed by the seed of
/// the generator, the draws it made before and `bound`: for a `usize` range
/// the draw is made on 32 bits wherever the bound fits, so a 32-bit and a
/// 64-bit machine agree. The generator keeps its seed and has made one draw
/// more. This is stated of the outside function, not proved. The outside
/// function panics on an empty range, which `requires` leaves out.
#[verifier::external_body]
fn random_below(rng: &mut rand_seeder::SipRng, bound: usize) -> (index: usize)
    requires
        bound > 0,
    ensures
        index < bound,
        index == seeded_draw(rng_seed(*old(rng)), rng_bounds(*old(rng)), bound as nat),
        rng_seed(*final(rng)) == rng_seed(*old(rng)),
        rng_bounds(*final(rng)) == rng_bounds(*old(rng)).push(bound as nat),
{
    rand::Rng::random_range(rng, 0..bound)
}

/// The draws that came before the card at `position`: one among
/// `RANKS_DRAWN` for each earlier card.
pub open spec fn earlier_draws(position: nat) -> Seq<nat> {
    Seq::new(position, |i: int| RANKS_DRAWN as nat)
}

/// The rank of the card that stands at `position` in the deck of `seed`:
/// the ranks start at 1, so it is one more than the number drawn.
pub open spec fn card_at(seed: Seq<u8>, position: nat) -> u32 {
    (seeded_draw(seed, earlier_draws(position), RANKS_DRAWN as nat) + 1) as u32
}

/// The first `count` cards of the deck of `seed`.
pub open spec fn seeded_deck(seed: Seq<u8>, count: nat) -> Seq<u32> {
    Seq::new(count, |k: int| card_at(seed, k as nat))
}

/// Every card of `cards` has one of the ranks that a draw gives.
pub open spec fn ranks_drawn(cards: Seq<u32>) -> bool {
    forall|k: int| 0 <= k < cards.len() ==> 1 <= #[trigger] cards[k] <= RANKS_DRAWN
}

/// The first `count` cards of the deck of `seed`.
pub fn draw_cards(seed: &[u8], count: usize) -> (cards: Vec<u32>)
    ensures
        cards@ == seeded_deck(seed@, count as nat),
        ranks_drawn(cards@),
{
    let mut rng = seeded_rng(seed);
    let mut cards: Vec<u32> = Vec::new();
    assert(rng_bounds(rng) == earlier_draws(0));
    while cards.len() < count
        invariant
            cards@.len() <= count,
            rng_seed(rng) == seed@,
            rng_bounds(rng) == earlier_draws(cards@.len()),
            cards@ == seeded_deck(seed@, cards@.len()),
            ranks_drawn(cards@),
        decreases count - cards@.len(),
    {
        let ghost dealt = cards@;
        let index = random_below(&mut rng, RANKS_DRAWN);
        assert(earlier_draws(dealt.len()).push(RANKS_DRAWN as nat) == earlier_draws(
            dealt.len() + 1,
        ));
        cards.push((index + 1) as u32);
        assert(cards@ == seeded_deck(seed@, cards@.len())) by {
            assert(cards@[dealt.len() as int] == card_at(seed@, dealt.len()));
            assert forall|k: int| 0 <= k < cards@.len() implies cards@[k] == seeded_deck(
                seed@,
                cards@.len(),
            )[k] by {
                if k < dealt.len() {
                    assert(dealt[k] == seeded_deck(seed@, dealt.len())[k]);
                }
            }
        }
    }
    cards
}

} // verus!
