use game::interaction::{
    BuildRequest, ClickOutcome, GameState, Placement, ResolveError, ResolveOutcome, SpawnError,
};
use game::zone::{default_placement_zone, Pos};

#[test]
fn place_inside_zone_renews_inventory() {
    let mut g = GameState::new(0);
    let holder = g.spawn_inventory(1);
    assert_eq!(holder, 0);
    assert_eq!(g.slots[0].inventory.items, vec![1]);
    g.setup_selection();
    let zone = default_placement_zone();

    let r = g.tick(true, Pos::new(0, 0), &zone);
    assert_eq!(r.click, ClickOutcome::Spawned);
    assert_eq!(r.resolved.len(), 1);
    match r.resolved[0] {
        ResolveOutcome::Placed { item, placement, new_item, new_item_type: _ } => {
            assert_eq!(item, 1);
            assert_eq!(placement, Placement { x: 0, y: 0, depth: 1 });
            assert_eq!(new_item, 2);
        },
        _ => panic!("expected a placement"),
    }
    // the old front is gone, the length is back to one, the back is fresh
    assert_eq!(g.slots[0].inventory.items, vec![2]);
    // no request survives the tick
    assert_eq!(g.requests.len(), 0);
}

#[test]
fn resolution_changes_front_and_appends_fresh_back() {
    let mut g = GameState::new(0);
    let holder = g.spawn_inventory(2);
    assert_eq!(g.slots[0].inventory.items, vec![1, 2]);
    g.setup_selection();
    let zone = default_placement_zone();

    let old_front = g.slots[0].inventory.items[0];
    let r = g.tick(true, Pos::new(-5, 17), &zone);
    assert_eq!(r.click, ClickOutcome::Spawned);
    let items = &g.slots[0].inventory.items;
    // length unchanged, front changed, old front gone, back is fresh
    assert_eq!(items.len(), 2);
    assert_ne!(items[0], old_front);
    assert!(!items.contains(&old_front));
    assert_eq!(*items, vec![2, 3]);
    assert_eq!(holder, 0);
}

#[test]
fn refused_outside_zone_keeps_inventory() {
    let mut g = GameState::new(0);
    g.spawn_inventory(1);
    g.setup_selection();
    let zone = default_placement_zone();

    let r = g.tick(true, Pos::new(400, 400), &zone);
    assert_eq!(r.click, ClickOutcome::Spawned);
    assert_eq!(r.resolved.len(), 1);
    assert_eq!(r.resolved[0], ResolveOutcome::Skipped);
    // the inventory is unchanged and the request was still deleted
    assert_eq!(g.slots[0].inventory.items, vec![1]);
    assert_eq!(g.requests.len(), 0);
}

#[test]
fn no_click_spawns_nothing() {
    let mut g = GameState::new(0);
    g.spawn_inventory(1);
    g.setup_selection();
    let zone = default_placement_zone();

    let r = g.tick(false, Pos::new(0, 0), &zone);
    assert_eq!(r.click, ClickOutcome::NoClick);
    assert_eq!(r.resolved.len(), 0);
    assert_eq!(g.slots[0].inventory.items, vec![1]);
}

#[test]
fn empty_inventory_is_rejected() {
    let mut g = GameState::new(0);
    g.spawn_inventory(0);
    g.setup_selection();
    let zone = default_placement_zone();

    let r = g.tick(true, Pos::new(0, 0), &zone);
    assert_eq!(r.click, ClickOutcome::Rejected(SpawnError::EmptyInventory));
    assert_eq!(r.resolved.len(), 0);
}

#[test]
fn empty_selection_is_rejected() {
    let mut g = GameState::new(0);
    g.setup_selection();
    let zone = default_placement_zone();

    let r = g.tick(true, Pos::new(0, 0), &zone);
    assert_eq!(r.click, ClickOutcome::Rejected(SpawnError::InvalidSelection));
}

#[test]
fn unknown_holder_is_rejected() {
    let mut g = GameState::new(0);
    g.spawn_inventory(1);
    g.setup_selection();
    // point the selection at an entity that holds no inventory
    g.selection.inventories[0] = 99;
    let zone = default_placement_zone();

    let r = g.tick(true, Pos::new(0, 0), &zone);
    assert_eq!(r.click, ClickOutcome::Rejected(SpawnError::UnknownInventory));
    assert_eq!(g.slots[0].inventory.items, vec![1]);
}

#[test]
fn every_request_is_deleted_at_cleanup() {
    let mut g = GameState::new(0);
    let holder = g.spawn_inventory(2);
    g.setup_selection();
    let zone = default_placement_zone();

    // requests that were already there are handled and deleted too
    g.requests.push(BuildRequest {
        inventory: holder,
        item: 1,
        position: Pos::new(10, 10),
        refused: None,
    });
    g.requests.push(BuildRequest {
        inventory: holder,
        item: 1,
        position: Pos::new(20, 20),
        refused: None,
    });
    let r = g.tick(false, Pos::new(0, 0), &zone);
    assert_eq!(r.click, ClickOutcome::NoClick);
    assert_eq!(r.resolved.len(), 2);
    // the first request consumes item 1; the second no longer finds it
    assert!(matches!(r.resolved[0], ResolveOutcome::Placed { item: 1, .. }));
    assert_eq!(r.resolved[1], ResolveOutcome::Failed(ResolveError::MissingItem));
    assert_eq!(g.requests.len(), 0);
}

#[test]
fn request_for_unknown_inventory_fails() {
    let mut g = GameState::new(0);
    g.spawn_inventory(1);
    g.setup_selection();
    let zone = default_placement_zone();

    g.requests.push(BuildRequest {
        inventory: 42,
        item: 1,
        position: Pos::new(0, 0),
        refused: None,
    });
    let r = g.tick(false, Pos::new(0, 0), &zone);
    assert_eq!(r.resolved.len(), 1);
    assert_eq!(r.resolved[0], ResolveOutcome::Failed(ResolveError::UnknownInventory));
    assert_eq!(g.requests.len(), 0);
}

#[test]
fn depth_counts_successful_placements() {
    let mut g = GameState::new(0);
    g.spawn_inventory(1);
    g.setup_selection();
    let zone = default_placement_zone();

    let mut depths = Vec::new();
    for k in 0..3 {
        let r = g.tick(true, Pos::new(k, k), &zone);
        match r.resolved[0] {
            ResolveOutcome::Placed { placement, .. } => depths.push(placement.depth),
            _ => panic!("expected a placement"),
        }
    }
    assert_eq!(depths, vec![1, 2, 3]);
}
