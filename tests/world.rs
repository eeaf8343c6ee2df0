use raycaster::gamestate::GameState;
use raycaster::objects::{Entity, Object, Rgba};
use raycaster::util::{div_trunc, Vec2, Vec2U};
use raycaster::{FIX_ONE, WORLD};

fn cell(state: &GameState, x: u32, y: u32) -> u32 {
    state.world[(x + WORLD * y) as usize]
}

fn empty_state() -> GameState {
    GameState::with_camera(
        Vec2::new(12 * FIX_ONE, 12 * FIX_ONE),
        Vec2::new(-FIX_ONE, 0),
        Vec2::new(0, 49152),
    )
}

#[test]
fn vec2u_new_keeps_coordinates() {
    let v = Vec2U::new(3, 7);
    assert_eq!(v.x, 3);
    assert_eq!(v.y, 7);
}

#[test]
fn wall_entity_fields() {
    let e = Entity::wall(Vec2U::new(1, 2), Vec2U::new(5, 2), Rgba::rgb(10, 20, 30));
    assert_eq!(e.kind, Object::WALL);
    assert_eq!(e.start, Vec2U::new(1, 2));
    assert_eq!(e.end, Vec2U::new(5, 2));
    assert_eq!(e.color, Rgba { r: 10, g: 20, b: 30, a: 255 });
}

#[test]
fn horizontal_wall_fills_half_open_row() {
    let mut s = empty_state();
    s.add_entity(Entity::wall(Vec2U::new(3, 5), Vec2U::new(7, 5), Rgba::rgb(1, 2, 3)));
    for x in 0..WORLD {
        for y in 0..WORLD {
            let expected = if (3..7).contains(&x) && y == 5 { 1 } else { 0 };
            assert_eq!(cell(&s, x, y), expected, "cell ({}, {})", x, y);
        }
    }
}

#[test]
fn vertical_wall_fills_half_open_column() {
    let mut s = empty_state();
    s.add_entity(Entity::wall(Vec2U::new(6, 6), Vec2U::new(6, 9), Rgba::rgb(1, 2, 3)));
    for x in 0..WORLD {
        for y in 0..WORLD {
            let expected = if x == 6 && (6..9).contains(&y) { 1 } else { 0 };
            assert_eq!(cell(&s, x, y), expected, "cell ({}, {})", x, y);
        }
    }
}

#[test]
fn identifiers_count_up_from_one() {
    let mut s = empty_state();
    s.add_entity(Entity::wall(Vec2U::new(10, 2), Vec2U::new(10, 4), Rgba::rgb(9, 9, 9)));
    s.add_entity(Entity::wall(Vec2U::new(1, 1), Vec2U::new(4, 1), Rgba::rgb(8, 8, 8)));
    s.add_entity(Entity::wall(Vec2U::new(20, 20), Vec2U::new(20, 22), Rgba::rgb(7, 7, 7)));
    assert_eq!(s.entities.len(), 3);
    assert_eq!(cell(&s, 10, 2), 1);
    assert_eq!(cell(&s, 1, 1), 2);
    assert_eq!(cell(&s, 20, 21), 3);
    assert_eq!(s.entities[1].color, Rgba::rgb(8, 8, 8));
}

#[test]
fn later_wall_overwrites_shared_cells() {
    let mut s = empty_state();
    s.add_entity(Entity::wall(Vec2U::new(2, 4), Vec2U::new(6, 4), Rgba::rgb(1, 1, 1)));
    s.add_entity(Entity::wall(Vec2U::new(4, 2), Vec2U::new(4, 6), Rgba::rgb(2, 2, 2)));
    assert_eq!(cell(&s, 4, 4), 2);
    assert_eq!(cell(&s, 3, 4), 1);
    assert_eq!(cell(&s, 5, 4), 1);
}

#[test]
fn starting_world_layout() {
    let s = GameState::new();
    assert_eq!(s.entities.len(), 7);
    assert_eq!(s.position, Vec2::new(12 * FIX_ONE, 12 * FIX_ONE));
    for y in 1..WORLD - 1 {
        assert_eq!(cell(&s, 0, y), 1);
    }
    for y in 0..WORLD - 1 {
        assert_eq!(cell(&s, WORLD - 1, y), 3);
    }
    for x in 0..WORLD - 1 {
        assert_eq!(cell(&s, x, 0), 2);
        assert_eq!(cell(&s, x, WORLD - 1), 4);
    }
    assert_eq!(cell(&s, 0, WORLD - 1), 4);
    assert_eq!(cell(&s, WORLD - 1, WORLD - 1), 0);
    assert_eq!(cell(&s, 5, 5), 5);
    assert_eq!(cell(&s, 3, 8), 6);
    assert_eq!(cell(&s, 6, 6), 7);
    assert_eq!(cell(&s, 12, 12), 0);
    assert_eq!(s.entities[0].color, Rgba::rgb(128, 128, 144));
}

fn unit(theta: f64) -> (i64, i64) {
    let one = FIX_ONE as f64;
    ((theta.cos() * one).trunc() as i64, (theta.sin() * one).trunc() as i64)
}

#[test]
fn rotate_quarter_turn() {
    let mut s = GameState::new();
    s.rotate(0, FIX_ONE);
    assert_eq!(s.direction, Vec2::new(0, -FIX_ONE));
    assert_eq!(s.plane, Vec2::new(-49152, 0));
    assert_eq!(s.position, Vec2::new(12 * FIX_ONE, 12 * FIX_ONE));
}

#[test]
fn rotate_then_back_restores_vectors() {
    for theta in [0.048f64, -0.3, 1.0, 2.5] {
        let (c, sn) = unit(theta);
        let mut s = GameState::new();
        let dir = s.direction;
        let plane = s.plane;
        s.rotate(c, sn);
        assert_ne!(s.direction, dir);
        s.rotate(c, -sn);
        for (a, b) in [(s.direction.x, dir.x), (s.direction.y, dir.y), (s.plane.x, plane.x), (s.plane.y, plane.y)] {
            assert!((a - b).abs() <= 8, "{} vs {} at {}", a, b, theta);
        }
    }
}

#[test]
fn movement_then_back_restores_position() {
    let mut s = GameState::new();
    let (c, sn) = unit(0.7);
    s.rotate(c, sn);
    let start = s.position;
    s.movement(3145);
    assert_ne!(s.position, start);
    s.movement(-3145);
    assert_eq!(s.position, start);
}

#[test]
fn movement_forward_along_direction() {
    let mut s = GameState::new();
    s.movement(FIX_ONE / 2);
    assert_eq!(s.position, Vec2::new(12 * FIX_ONE - FIX_ONE / 2, 12 * FIX_ONE));
}

#[test]
fn movement_passes_through_walls() {
    let mut s = GameState::new();
    s.movement(20 * FIX_ONE);
    assert_eq!(s.position, Vec2::new(-8 * FIX_ONE, 12 * FIX_ONE));
}

#[test]
fn truncating_division() {
    assert_eq!(div_trunc(7, 2), 3);
    assert_eq!(div_trunc(-7, 2), -3);
    assert_eq!(div_trunc(0, 5), 0);
}
