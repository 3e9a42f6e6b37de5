use game::interaction::{BuildRequest, GameState, RefusedBuild};
use game::zone::{default_placement_zone, Pos};

#[test]
fn zone_bounds_are_half_open() {
    let zone = default_placement_zone();
    // corners on the inclusive edges
    assert!(zone.contains(Pos::new(-200, -100)));
    assert!(zone.contains(Pos::new(299, 249)));
    assert!(zone.contains(Pos::new(0, 0)));
    // just outside each bound
    assert!(!zone.contains(Pos::new(-201, 0)));
    assert!(!zone.contains(Pos::new(300, 0)));
    assert!(!zone.contains(Pos::new(0, -101)));
    assert!(!zone.contains(Pos::new(0, 250)));
    assert!(!zone.contains(Pos::new(400, 400)));
}

fn request_at(x: i64, y: i64) -> BuildRequest {
    BuildRequest { inventory: 0, item: 1, position: Pos::new(x, y), refused: None }
}

#[test]
fn validation_never_refuses_inside_the_zone() {
    let mut g = GameState::new(0);
    let zone = default_placement_zone();
    for (x, y) in [(-200, -100), (299, 249), (0, 0), (-1, 248), (150, -100)] {
        g.requests.push(request_at(x, y));
    }
    g.verify_empty_space(&zone);
    for r in &g.requests {
        assert_eq!(r.refused, None);
    }
}

#[test]
fn validation_always_refuses_outside_the_zone() {
    let mut g = GameState::new(0);
    let zone = default_placement_zone();
    for (x, y) in [(-201, 0), (300, 0), (0, -101), (0, 250), (400, 400), (-300, 500)] {
        g.requests.push(request_at(x, y));
    }
    g.verify_empty_space(&zone);
    for r in &g.requests {
        assert_eq!(r.refused, Some(RefusedBuild::NotEnoughPlace));
    }
}
