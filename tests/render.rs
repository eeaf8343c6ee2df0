use raycaster::gamestate::GameState;
use raycaster::objects::{Entity, Rgba};
use raycaster::raycast::{camera_ray, cast_column, cast_ray, shade, wall_span, RayHit, Slice};
use raycaster::screen::Screen;
use raycaster::util::{Vec2, Vec2U};
use raycaster::{FIX_ONE, HEIGHT, WIDTH, WORLD};

fn bordered_room(position: Vec2, direction: Vec2) -> GameState {
    let mut s = GameState::with_camera(position, direction, Vec2::new(0, 0));
    let grey = Rgba::rgb(100, 100, 100);
    s.add_entity(Entity::wall(Vec2U::new(0, 0), Vec2U::new(0, WORLD - 1), Rgba::rgb(128, 128, 144)));
    s.add_entity(Entity::wall(Vec2U::new(0, 0), Vec2U::new(WORLD - 1, 0), grey));
    s.add_entity(Entity::wall(Vec2U::new(WORLD - 1, 0), Vec2U::new(WORLD - 1, WORLD - 1), grey));
    s.add_entity(Entity::wall(Vec2U::new(0, WORLD - 1), Vec2U::new(WORLD - 1, WORLD - 1), grey));
    s
}

fn pixel(screen: &Screen, col: u32, row: u32) -> [u8; 4] {
    let i = ((row * WIDTH + col) * 4) as usize;
    [screen.screen[i], screen.screen[i + 1], screen.screen[i + 2], screen.screen[i + 3]]
}

#[test]
fn center_column_hits_left_wall() {
    let s = GameState::new();
    let ray = camera_ray(s.direction, s.plane, WIDTH / 2);
    assert_eq!(ray, Vec2::new(-FIX_ONE, 0));
    let hit = cast_ray(&s.world, s.position, ray).unwrap();
    assert_eq!((hit.map_x, hit.map_y, hit.side), (0, 12, 0));
    assert_eq!(s.world[(hit.map_x + WORLD * hit.map_y) as usize], 1);
    // The wall's face is at x = 1, eleven cells from the camera.
    assert_eq!(hit.perp_dist(), 11 * FIX_ONE);
}

#[test]
fn room_center_distance_and_symmetric_span() {
    let half = (WORLD as i64 * FIX_ONE) / 2;
    for dir in [Vec2::new(-FIX_ONE, 0), Vec2::new(FIX_ONE, 0), Vec2::new(0, FIX_ONE), Vec2::new(0, -FIX_ONE)] {
        let s = bordered_room(Vec2::new(half, half), dir);
        let ray = camera_ray(s.direction, s.plane, WIDTH / 2);
        let hit = cast_ray(&s.world, s.position, ray).unwrap();
        // From 12.5 to the near face of the border cell: 11.5 cells.
        assert_eq!(hit.perp_dist(), 11 * FIX_ONE + FIX_ONE / 2);
        let (start, end) = wall_span(hit.dist_num, hit.dist_den);
        assert_eq!((HEIGHT / 2) as i32 - start, end - (HEIGHT / 2) as i32);
        assert_eq!((start, end), (411, 489));
    }
}

#[test]
fn axis_aligned_ray_keeps_other_coordinate() {
    let s = bordered_room(Vec2::new(7 * FIX_ONE + 300, 9 * FIX_ONE + 7000), Vec2::new(FIX_ONE, 0));
    let hit = cast_ray(&s.world, s.position, Vec2::new(FIX_ONE, 0)).unwrap();
    assert_eq!((hit.map_x, hit.map_y, hit.side), (WORLD - 1, 9, 0));
    let hit = cast_ray(&s.world, s.position, Vec2::new(0, -3 * FIX_ONE)).unwrap();
    assert_eq!((hit.map_x, hit.map_y, hit.side), (7, 0, 1));
}

#[test]
fn diagonal_ray_distance() {
    let s = bordered_room(Vec2::new(5 * FIX_ONE / 2, 5 * FIX_ONE / 2), Vec2::new(FIX_ONE, 0));
    let hit = cast_ray(&s.world, s.position, Vec2::new(-FIX_ONE, -2 * FIX_ONE)).unwrap();
    assert_eq!((hit.map_x, hit.map_y, hit.side), (1, 0, 1));
    assert_eq!(hit, RayHit { map_x: 1, map_y: 0, side: 1, dist_num: 3 * FIX_ONE / 2, dist_den: 2 * FIX_ONE });
}

#[test]
fn ray_without_walls_escapes() {
    let s = GameState::with_camera(Vec2::new(3 * FIX_ONE, 3 * FIX_ONE), Vec2::new(FIX_ONE, 0), Vec2::new(0, 0));
    assert_eq!(cast_ray(&s.world, s.position, Vec2::new(FIX_ONE, FIX_ONE / 3)), None);
    assert_eq!(cast_column(&s, 0), None);
}

#[test]
fn camera_outside_world_sees_nothing() {
    let s = bordered_room(Vec2::new(-FIX_ONE, 3 * FIX_ONE), Vec2::new(FIX_ONE, 0));
    assert_eq!(cast_ray(&s.world, s.position, Vec2::new(FIX_ONE, 0)), None);
}

#[test]
fn column_ray_offsets() {
    let dir = Vec2::new(-FIX_ONE, 0);
    let plane = Vec2::new(0, 49152);
    assert_eq!(camera_ray(dir, plane, 0), Vec2::new(-FIX_ONE, -49152));
    assert_eq!(camera_ray(dir, plane, 900), Vec2::new(-FIX_ONE, 24576));
    assert_eq!(camera_ray(dir, plane, 300), Vec2::new(-FIX_ONE, -24576));
}

#[test]
fn span_values() {
    assert_eq!(wall_span(11 * FIX_ONE, FIX_ONE), (410, 490));
    assert_eq!(wall_span(FIX_ONE, FIX_ONE), (0, 899));
    assert_eq!(wall_span(0, FIX_ONE), (0, 899));
    assert_eq!(wall_span(2 * FIX_ONE, FIX_ONE), (225, 675));
}

#[test]
fn side_one_halves_every_channel() {
    let c = Rgba { r: 129, g: 64, b: 1, a: 255 };
    assert_eq!(shade(c, 0), c);
    assert_eq!(shade(c, 1), Rgba { r: 64, g: 32, b: 0, a: 127 });
}

#[test]
fn side_one_hit_of_same_wall_is_half_as_bright() {
    let s = GameState::new();
    let x_hit = cast_column(&s, WIDTH / 2).unwrap();
    let mut turned = GameState::new();
    turned.rotate(0, FIX_ONE);
    let y_hit = cast_column(&turned, WIDTH / 2).unwrap();
    assert_eq!(x_hit.color, Rgba::rgb(128, 128, 144));
    assert_eq!(y_hit.color, Rgba { r: 56, g: 64, b: 72, a: 127 });
    assert_eq!(shade(Rgba::rgb(112, 128, 144), 1), y_hit.color);
}

#[test]
fn column_slice_of_center() {
    let s = GameState::new();
    assert_eq!(
        cast_column(&s, WIDTH / 2),
        Some(Slice { start: 410, end: 490, color: Rgba::rgb(128, 128, 144) })
    );
}

#[test]
fn new_screen_is_blank() {
    let s = Screen::new();
    assert_eq!(s.screen.len(), (WIDTH * HEIGHT * 4) as usize);
    assert!(s.screen.iter().all(|b| *b == 0));
}

#[test]
fn draw_verline_writes_one_column() {
    let mut s = Screen::new();
    s.draw_verline(5, 10, 13, Rgba { r: 1, g: 2, b: 3, a: 4 });
    assert_eq!(pixel(&s, 5, 9), [0, 0, 0, 0]);
    assert_eq!(pixel(&s, 5, 10), [1, 2, 3, 4]);
    assert_eq!(pixel(&s, 5, 12), [1, 2, 3, 4]);
    assert_eq!(pixel(&s, 5, 13), [0, 0, 0, 0]);
    assert_eq!(pixel(&s, 4, 11), [0, 0, 0, 0]);
    assert_eq!(pixel(&s, 6, 11), [0, 0, 0, 0]);
    assert_eq!(s.screen.iter().filter(|b| **b != 0).count(), 12);
}

#[test]
fn render_draws_center_column() {
    let mut game = GameState::new();
    let mut screen = Screen::new();
    screen.draw_verline(600, 0, 900, Rgba::rgb(9, 9, 9));
    screen.render(&mut game);
    assert_eq!(pixel(&screen, 600, 409), [0, 0, 0, 0]);
    assert_eq!(pixel(&screen, 600, 410), [128, 128, 144, 255]);
    assert_eq!(pixel(&screen, 600, 489), [128, 128, 144, 255]);
    assert_eq!(pixel(&screen, 600, 490), [0, 0, 0, 0]);
    assert_eq!(pixel(&screen, 600, 899), [0, 0, 0, 0]);
}
