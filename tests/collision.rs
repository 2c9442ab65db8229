use possync::game::GameState;
use possync::net_common::{NetBuilding, NetColour, NetPlayer, NetPosition};

fn colour() -> NetColour {
    NetColour { r: 0, g: 0, b: 0, a: 0 }
}

fn building(x: i32, y: i32, width: u32, height: u32) -> NetBuilding {
    NetBuilding { position: NetPosition { x, y }, width, height, colour: colour() }
}

fn player_at(x: i32, y: i32) -> NetPlayer {
    NetPlayer { position: NetPosition { x, y }, id: 0, name: String::from("p"), colour: colour() }
}

fn state_with(buildings: Vec<NetBuilding>) -> GameState {
    let mut s = GameState::default();
    s.buildings = buildings;
    s
}

#[test]
fn move_from_overlapping_start_is_not_reset() {
    // The box at (100,100) already overlaps the obstacle along both axes, so
    // neither axis was clear before the move and nothing is cancelled.
    let s = state_with(vec![building(105, 100, 50, 20)]);
    let r = s.resolve_collide(&player_at(100, 100), NetPosition { x: 110, y: 100 });
    assert_eq!(r, NetPosition { x: 110, y: 100 });
}

#[test]
fn pure_y_move_resolves_unchanged() {
    let s = state_with(vec![building(105, 100, 50, 20)]);
    let r = s.resolve_collide(&player_at(100, 100), NetPosition { x: 100, y: 80 });
    assert_eq!(r, NetPosition { x: 100, y: 80 });
}

#[test]
fn pure_x_move_into_wall_is_reset() {
    // Player box spans x 0..10; the wall starts at x 12.
    let s = state_with(vec![building(12, -100, 10, 300)]);
    let r = s.resolve_collide(&player_at(0, 0), NetPosition { x: 5, y: 0 });
    assert_eq!(r, NetPosition { x: 0, y: 0 });
}

#[test]
fn diagonal_move_slides_along_wall() {
    let s = state_with(vec![building(12, -100, 10, 300)]);
    let r = s.resolve_collide(&player_at(0, 0), NetPosition { x: 5, y: 7 });
    assert_eq!(r, NetPosition { x: 0, y: 7 });
}

#[test]
fn diagonal_move_into_corner_cancels_both_axes() {
    // Obstacle to the lower right, clear of the player along both axes.
    let s = state_with(vec![building(15, 25, 10, 10)]);
    let r = s.resolve_collide(&player_at(0, 0), NetPosition { x: 6, y: 6 });
    assert_eq!(r, NetPosition { x: 0, y: 0 });
}

#[test]
fn move_in_open_space_is_kept() {
    let s = state_with(vec![building(500, 500, 10, 10)]);
    let r = s.resolve_collide(&player_at(0, 0), NetPosition { x: 3, y: -4 });
    assert_eq!(r, NetPosition { x: 3, y: -4 });
}

#[test]
fn every_obstacle_is_considered() {
    // The first building cancels x, the second cancels y.
    let s = state_with(vec![building(12, -100, 10, 300), building(-100, 25, 300, 10)]);
    let r = s.resolve_collide(&player_at(0, 0), NetPosition { x: 5, y: 6 });
    assert_eq!(r, NetPosition { x: 0, y: 0 });
}

#[test]
fn axis_move_never_ends_inside_new_obstacle() {
    let s = state_with(vec![building(12, -100, 10, 300), building(0, 25, 10, 10)]);
    for (dx, dy) in [(5, 0), (0, 6), (-3, 0), (0, -2)] {
        let r = s.resolve_collide(&player_at(0, 0), NetPosition { x: dx, y: dy });
        for b in &s.buildings {
            let overlaps = !(b.position.x as i64 > r.x as i64 + 10
                || r.x as i64 > b.position.x as i64 + b.width as i64)
                && !(r.y as i64 > b.position.y as i64 + b.height as i64
                    || b.position.y as i64 > r.y as i64 + 20);
            assert!(!overlaps);
        }
    }
}

#[test]
fn reconcile_writes_resolved_position_back() {
    let mut s = state_with(vec![building(12, -100, 10, 300)]);
    s.own_player = 0;
    s.add_player(player_at(0, 0));
    let r = s.reconcile_own_move(NetPosition { x: 5, y: 7 });
    assert_eq!(r, Some(NetPosition { x: 0, y: 7 }));
    assert_eq!(s.players[0].position, NetPosition { x: 0, y: 7 });
}

#[test]
fn reconcile_without_local_player_changes_nothing() {
    let mut s = state_with(vec![]);
    s.own_player = 4;
    s.add_player(player_at(0, 0));
    assert_eq!(s.reconcile_own_move(NetPosition { x: 5, y: 7 }), None);
    assert_eq!(s.players[0].position, NetPosition { x: 0, y: 0 });
}

#[test]
fn diagonal_slide_can_end_in_an_obstacle_the_move_did_not_touch() {
    // The wall on the right cancels x; the kept y movement then reaches a
    // block on the left that neither the start nor the proposed box touched.
    let s = state_with(vec![building(12, -100, 10, 300), building(-20, 25, 22, 10)]);
    let r = s.resolve_collide(&player_at(0, 0), NetPosition { x: 5, y: 10 });
    assert_eq!(r, NetPosition { x: 0, y: 10 });
}
