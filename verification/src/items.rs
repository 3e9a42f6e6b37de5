//! Item kinds and the random draw that picks a replacement item.

use vstd::prelude::*;

use crate::rng::chacha_stream;
use crate::rng::RandomDeterministic;

verus! {

/// The kinds of item the game can hand out.
#[derive(Clone, Copy, PartialEq, Eq, Structural, Debug)]
pub enum ItemType {
    Circle,
    Triangle,
    Square,
    Star,
}

/// The item kind that a drawn 32-bit word selects.
pub open spec fn item_of_draw(v: u32) -> ItemType {
    if v % 4 == 0 {
        ItemType::Circle
    } else if v % 4 == 1 {
        ItemType::Triangle
    } else if v % 4 == 2 {
        ItemType::Square
    } else {
        ItemType::Star
    }
}

/// The `n`th item that a generator seeded from `seed` draws.
pub open spec fn drawn_item(seed: u64, n: nat) -> ItemType {
    item_of_draw(chacha_stream(seed, n))
}

/// The first `n` items that a generator seeded from `seed` draws, in order.
pub open spec fn drawn_items(seed: u64, n: nat) -> Seq<ItemType> {
    Seq::new(n, |i: int| drawn_item(seed, i as nat))
}

/// Draws the next item kind from the generator.
pub fn get_random_item(rng: &mut RandomDeterministic) -> (r: ItemType)
    ensures
        r == drawn_item(old(rng)@.seed, old(rng)@.drawn),
        final(rng)@.seed == old(rng)@.seed,
        final(rng)@.drawn == old(rng)@.drawn + 1,
{
    let v = rng.next_u32();
    let sel = v % 4;
    if sel == 0 {
        ItemType::Circle
    } else if sel == 1 {
        ItemType::Triangle
    } else if sel == 2 {
        ItemType::Square
    } else {
        ItemType::Star
    }
}

/// The item sequence depends on the seed alone: two generators made with
/// equal seeds draw equal items at every rank, so any run with the same
/// seed reproduces the same sequence.
pub proof fn lemma_item_stream_deterministic(seed_a: u64, seed_b: u64, n: nat)
    requires
        seed_a == seed_b,
    ensures
        drawn_items(seed_a, n) == drawn_items(seed_b, n),
        forall|k: nat| k < n ==> drawn_items(seed_a, n)[k as int] == drawn_item(seed_a, k),
{
    assert(drawn_items(seed_a, n) =~= drawn_items(seed_b, n));
}

} // verus!
