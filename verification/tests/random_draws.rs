use game::interaction::{GameState, ResolveOutcome};
use game::items::{get_random_item, ItemType};
use game::rng::RandomDeterministic;
use game::zone::{default_placement_zone, Pos};

use rand_chacha::rand_core::{RngCore, SeedableRng};
use rand_chacha::ChaCha20Rng;

#[test]
fn default_generator_is_seeded_with_zero() {
    let rng = RandomDeterministic::default();
    assert_eq!(rng.seed(), 0);
}

#[test]
fn equal_seeds_draw_equal_items() {
    let mut a = RandomDeterministic::new(7);
    let mut b = RandomDeterministic::new(7);
    for _ in 0..32 {
        assert_eq!(get_random_item(&mut a), get_random_item(&mut b));
    }
}

#[test]
fn draws_follow_the_chacha_stream() {
    // the library's draw must match a ChaCha20 generator seeded the same way
    let mut reference = ChaCha20Rng::seed_from_u64(0);
    let mut rng = RandomDeterministic::new(0);
    for _ in 0..16 {
        let expected = match reference.next_u32() % 4 {
            0 => ItemType::Circle,
            1 => ItemType::Triangle,
            2 => ItemType::Square,
            _ => ItemType::Star,
        };
        assert_eq!(get_random_item(&mut rng), expected);
    }
}

#[test]
fn resolutions_with_a_fixed_seed_are_reproducible() {
    let kinds_of_run = |seed: u64| -> Vec<ItemType> {
        let mut g = GameState::new(seed);
        g.spawn_inventory(1);
        g.setup_selection();
        let zone = default_placement_zone();
        let mut kinds = Vec::new();
        for _ in 0..8 {
            let r = g.tick(true, Pos::new(0, 0), &zone);
            match r.resolved[0] {
                ResolveOutcome::Placed { new_item_type, .. } => kinds.push(new_item_type),
                _ => panic!("expected a placement"),
            }
        }
        kinds
    };
    let first = kinds_of_run(123);
    let second = kinds_of_run(123);
    assert_eq!(first, second);
}
