use vstd::prelude::*;
use crate::gamestate::{cell_index, grid_len, norm2, GameState, MAX_VEC};
use crate::objects::{Entity, Rgba};
use crate::util::{div_trunc, tdiv, Vec2};
use crate::{FIX_ONE, HEIGHT, WIDTH, WORLD};

verus! {

/// Bound on the magnitude of each component of a cast ray, in fixed point.
pub const MAX_RAY: i64 = 4294967296;

/// Most grid steps a ray takes; a ray that finds no wall within them has
/// escaped the world.
pub const MAX_STEPS: u32 = 2 * WORLD + 2;

pub open spec fn abs(v: int) -> int {
    if v < 0 {
        -v
    } else {
        v
    }
}

/// A ray's walk through the grid: its current cell, the fixed-point
/// numerators `nx`, `ny` of the distances to its next x and y boundaries
/// (the distances are `nx / |ray.x|` and `ny / |ray.y|`), and the axis it
/// advanced last (0 for x, 1 for y).
pub struct Walk {
    pub map_x: int,
    pub map_y: int,
    pub nx: int,
    pub ny: int,
    pub side: int,
}

pub open spec fn axis_step(r: int) -> int {
    if r < 0 {
        -1
    } else {
        1
    }
}

/// Fixed-point distance from coordinate `p` to the first cell boundary in
/// the direction of the sign of `r`.
pub open spec fn first_boundary(p: int, r: int) -> int {
    let m = p / FIX_ONE as int;
    if r < 0 {
        p - m * FIX_ONE
    } else {
        (m + 1) * FIX_ONE - p
    }
}

/// Whether `pos` lies inside the world.
pub open spec fn pos_in_world(pos: Vec2) -> bool {
    0 <= pos.x < WORLD * FIX_ONE && 0 <= pos.y < WORLD * FIX_ONE
}

pub open spec fn in_world(x: int, y: int) -> bool {
    0 <= x < WORLD && 0 <= y < WORLD
}

pub open spec fn walk_start(pos: Vec2, ray: Vec2) -> Walk {
    Walk {
        map_x: pos.x as int / FIX_ONE as int,
        map_y: pos.y as int / FIX_ONE as int,
        nx: first_boundary(pos.x as int, ray.x as int),
        ny: first_boundary(pos.y as int, ray.y as int),
        side: 0,
    }
}

/// Whether the next x boundary comes strictly before the next y boundary.
/// An axis along which the ray does not move is never reached.
pub open spec fn x_first(w: Walk, ray: Vec2) -> bool {
    if ray.x == 0 {
        false
    } else if ray.y == 0 {
        true
    } else {
        w.nx * abs(ray.y as int) < w.ny * abs(ray.x as int)
    }
}

/// One step of the walk: cross the nearer boundary.
pub open spec fn walk_advance(w: Walk, ray: Vec2) -> Walk {
    if x_first(w, ray) {
        Walk { map_x: w.map_x + axis_step(ray.x as int), nx: w.nx + FIX_ONE, side: 0, ..w }
    } else {
        Walk { map_y: w.map_y + axis_step(ray.y as int), ny: w.ny + FIX_ONE, side: 1, ..w }
    }
}

/// The walk from `w` until it enters a nonzero cell of `grid` (`Some`), or
/// leaves the world or runs out of `fuel` steps (`None`).
pub open spec fn walk_from(grid: Seq<u32>, w: Walk, ray: Vec2, fuel: nat) -> Option<Walk>
    decreases fuel,
{
    if fuel == 0 {
        None
    } else {
        let n = walk_advance(w, ray);
        if !in_world(n.map_x, n.map_y) {
            None
        } else if grid[cell_index(n.map_x, n.map_y)] != 0 {
            Some(n)
        } else {
            walk_from(grid, n, ray, (fuel - 1) as nat)
        }
    }
}

/// Where a ray cast from `pos` along `ray` first meets a wall, if it does.
pub open spec fn cast(grid: Seq<u32>, pos: Vec2, ray: Vec2) -> Option<Walk> {
    if pos_in_world(pos) {
        walk_from(grid, walk_start(pos, ray), ray, MAX_STEPS as nat)
    } else {
        None
    }
}

/// The cell a ray struck, the axis it crossed last, and its perpendicular
/// distance as the fraction `dist_num / dist_den` of grid cells.
#[derive(Clone, Copy, Debug, PartialEq, Eq, Structural)]
pub struct RayHit {
    pub map_x: u32,
    pub map_y: u32,
    pub side: u8,
    pub dist_num: i64,
    pub dist_den: i64,
}

impl RayHit {
    /// The hit that walk `w` of `ray` describes. The perpendicular distance is
    /// the boundary distance of the last crossing, less one step.
    pub open spec fn describes(self, w: Walk, ray: Vec2) -> bool {
        &&& self.map_x == w.map_x
        &&& self.map_y == w.map_y
        &&& self.side == w.side
        &&& self.dist_num == (if w.side == 0 { w.nx } else { w.ny }) - FIX_ONE
        &&& self.dist_den == (if w.side == 0 { abs(ray.x as int) } else { abs(ray.y as int) })
    }

    /// The perpendicular distance in fixed point, rounded toward zero.
    pub fn perp_dist(&self) -> (d: i64)
        requires
            0 <= self.dist_num <= MAX_RAY,
            0 < self.dist_den,
        ensures
            d == self.dist_num * FIX_ONE / self.dist_den as int,
    {
        self.dist_num * FIX_ONE / self.dist_den
    }
}

proof fn lemma_walk_keeps_x(grid: Seq<u32>, w: Walk, ray: Vec2, fuel: nat)
    requires
        ray.x == 0,
    ensures
        walk_from(grid, w, ray, fuel) is Some ==> walk_from(grid, w, ray, fuel)->0.map_x == w.map_x,
    decreases fuel,
{
    if fuel > 0 {
        lemma_walk_keeps_x(grid, walk_advance(w, ray), ray, (fuel - 1) as nat);
    }
}

proof fn lemma_walk_keeps_y(grid: Seq<u32>, w: Walk, ray: Vec2, fuel: nat)
    requires
        ray.y == 0,
        ray.x != 0,
    ensures
        walk_from(grid, w, ray, fuel) is Some ==> walk_from(grid, w, ray, fuel)->0.map_y == w.map_y,
    decreases fuel,
{
    if fuel > 0 {
        lemma_walk_keeps_y(grid, walk_advance(w, ray), ray, (fuel - 1) as nat);
    }
}

/// Casts a ray from `pos` along `ray` through `grid` and reports the first
/// nonzero cell it enters. A ray that starts outside the world, leaves it, or
/// takes more than `MAX_STEPS` steps has escaped and gives `None`. A ray that
/// does not move along an axis never changes its cell on that axis.
pub fn cast_ray(grid: &Vec<u32>, pos: Vec2, ray: Vec2) -> (r: Option<RayHit>)
    requires
        grid@.len() == grid_len(),
        abs(ray.x as int) <= MAX_RAY,
        abs(ray.y as int) <= MAX_RAY,
    ensures
        r is None <==> cast(grid@, pos, ray) is None,
        r is Some ==> r->0.describes(cast(grid@, pos, ray)->0, ray),
        r is Some ==> 0 <= r->0.dist_num && 0 <= r->0.dist_den <= MAX_RAY,
        r is Some ==> r->0.map_x < WORLD && r->0.map_y < WORLD,
        r is Some ==> grid@[cell_index(r->0.map_x as int, r->0.map_y as int)] != 0,
        r is Some && ray.x == 0 ==> r->0.map_x == pos.x as int / FIX_ONE as int,
        r is Some && ray.y == 0 && ray.x != 0 ==> r->0.map_y == pos.y as int / FIX_ONE as int,
{
    if !(0 <= pos.x && pos.x < WORLD as i64 * FIX_ONE && 0 <= pos.y && pos.y < WORLD as i64 * FIX_ONE) {
        return None;
    }
    let ghost start = walk_start(pos, ray);
    proof {
        if ray.x == 0 {
            lemma_walk_keeps_x(grid@, start, ray, MAX_STEPS as nat);
        }
        if ray.y == 0 && ray.x != 0 {
            lemma_walk_keeps_y(grid@, start, ray, MAX_STEPS as nat);
        }
    }
    let mut map_x: i64 = pos.x / FIX_ONE;
    let mut map_y: i64 = pos.y / FIX_ONE;
    let step_x: i64 = if ray.x < 0 { -1 } else { 1 };
    let step_y: i64 = if ray.y < 0 { -1 } else { 1 };
    let mut nx: i64 = if ray.x < 0 { pos.x - map_x * FIX_ONE } else { (map_x + 1) * FIX_ONE - pos.x };
    let mut ny: i64 = if ray.y < 0 { pos.y - map_y * FIX_ONE } else { (map_y + 1) * FIX_ONE - pos.y };
    let ax: i64 = if ray.x < 0 { -ray.x } else { ray.x };
    let ay: i64 = if ray.y < 0 { -ray.y } else { ray.y };
    let mut side: u8 = 0;
    let mut fuel: u32 = MAX_STEPS;
    assert(nx == start.nx && ny == start.ny && map_x == start.map_x && map_y == start.map_y);
    while fuel > 0
        invariant
            grid@.len() == grid_len(),
            pos_in_world(pos),
            start == walk_start(pos, ray),
            ray.x == 0 && walk_from(grid@, start, ray, MAX_STEPS as nat) is Some
                ==> walk_from(grid@, start, ray, MAX_STEPS as nat)->0.map_x == start.map_x,
            ray.y == 0 && ray.x != 0 && walk_from(grid@, start, ray, MAX_STEPS as nat) is Some
                ==> walk_from(grid@, start, ray, MAX_STEPS as nat)->0.map_y == start.map_y,
            fuel <= MAX_STEPS,
            in_world(map_x as int, map_y as int),
            0 <= nx <= FIX_ONE * (1 + MAX_STEPS - fuel),
            0 <= ny <= FIX_ONE * (1 + MAX_STEPS - fuel),
            0 <= side <= 1,
            ax == abs(ray.x as int),
            ay == abs(ray.y as int),
            ax <= MAX_RAY,
            ay <= MAX_RAY,
            step_x == axis_step(ray.x as int),
            step_y == axis_step(ray.y as int),
            walk_from(grid@, start, ray, MAX_STEPS as nat) == walk_from(
                grid@,
                Walk { map_x: map_x as int, map_y: map_y as int, nx: nx as int, ny: ny as int, side: side as int },
                ray,
                fuel as nat,
            ),
        decreases fuel,
    {
        let ghost f = fuel as nat;
        let ghost w = Walk { map_x: map_x as int, map_y: map_y as int, nx: nx as int, ny: ny as int, side: side as int };
        let go_x: bool = if ray.x == 0 {
            false
        } else if ray.y == 0 {
            true
        } else {
            assert(nx * ay <= FIX_ONE * (1 + MAX_STEPS) * MAX_RAY) by (nonlinear_arith)
                requires 0 <= nx <= FIX_ONE * (1 + MAX_STEPS), 0 <= ay <= MAX_RAY;
            assert(ny * ax <= FIX_ONE * (1 + MAX_STEPS) * MAX_RAY) by (nonlinear_arith)
                requires 0 <= ny <= FIX_ONE * (1 + MAX_STEPS), 0 <= ax <= MAX_RAY;
            nx * ay < ny * ax
        };
        assert(go_x == x_first(w, ray));
        if go_x {
            map_x = map_x + step_x;
            nx = nx + FIX_ONE;
            side = 0;
        } else {
            map_y = map_y + step_y;
            ny = ny + FIX_ONE;
            side = 1;
        }
        fuel = fuel - 1;
        let ghost n = Walk { map_x: map_x as int, map_y: map_y as int, nx: nx as int, ny: ny as int, side: side as int };
        assert(n == walk_advance(w, ray));
        assert(walk_from(grid@, w, ray, f) == if !in_world(n.map_x, n.map_y) {
            None
        } else if grid@[cell_index(n.map_x, n.map_y)] != 0 {
            Some(n)
        } else {
            walk_from(grid@, n, ray, fuel as nat)
        });
        if !(0 <= map_x && map_x < WORLD as i64 && 0 <= map_y && map_y < WORLD as i64) {
            return None;
        }
        let k: usize = (map_x + WORLD as i64 * map_y) as usize;
        if grid[k] != 0 {
            return Some(RayHit {
                map_x: map_x as u32,
                map_y: map_y as u32,
                side,
                dist_num: if side == 0 { nx - FIX_ONE } else { ny - FIX_ONE },
                dist_den: if side == 0 { ax } else { ay },
            });
        }
    }
    None
}

/// Direction of the ray for screen column `x`: `dir + plane * cx` with the
/// camera-space offset `cx = 2 * x / WIDTH - 1`, rounded toward zero.
pub open spec fn column_ray(dir: Vec2, plane: Vec2, x: int) -> Vec2 {
    Vec2 {
        x: (dir.x + tdiv(plane.x * (2 * x - WIDTH), WIDTH as int)) as i64,
        y: (dir.y + tdiv(plane.y * (2 * x - WIDTH), WIDTH as int)) as i64,
    }
}

pub open spec fn vec_bounded(v: Vec2) -> bool {
    abs(v.x as int) <= MAX_VEC && abs(v.y as int) <= MAX_VEC
}

pub proof fn lemma_norm_bounds(v: Vec2)
    requires
        norm2(v) <= MAX_VEC * MAX_VEC,
    ensures
        vec_bounded(v),
{
    let m = MAX_VEC as int;
    let x = v.x as int;
    let y = v.y as int;
    assert(abs(x) <= m) by (nonlinear_arith)
        requires x * x + y * y <= m * m, m > 0, abs(x) == (if x < 0 { -x } else { x });
    assert(abs(y) <= m) by (nonlinear_arith)
        requires x * x + y * y <= m * m, m > 0, abs(y) == (if y < 0 { -y } else { y });
}

proof fn lemma_offset_bound(p: int, x: int)
    requires
        abs(p) <= MAX_VEC,
        0 <= x < WIDTH,
    ensures
        abs(tdiv(p * (2 * x - WIDTH), WIDTH as int)) <= abs(p),
        abs(p * (2 * x - WIDTH)) <= MAX_VEC * WIDTH,
{
    let w = WIDTH as int;
    let c = 2 * x - w;
    let a = p * c;
    assert(abs(a) <= abs(p) * w) by (nonlinear_arith)
        requires a == p * c, -w <= c <= w, abs(a) == (if a < 0 { -a } else { a }),
            abs(p) == (if p < 0 { -p } else { p });
    assert(abs(p) * w <= MAX_VEC * w) by (nonlinear_arith)
        requires abs(p) <= MAX_VEC, w > 0;
    assert(abs(a) / w <= abs(p)) by (nonlinear_arith)
        requires abs(a) <= abs(p) * w, w > 0, abs(a) >= 0;
}

/// The ray for screen column `x` of a camera looking along `dir` with
/// camera plane `plane`.
pub fn camera_ray(dir: Vec2, plane: Vec2, x: u32) -> (r: Vec2)
    requires
        vec_bounded(dir),
        vec_bounded(plane),
        x < WIDTH,
    ensures
        r == column_ray(dir, plane, x as int),
        abs(r.x as int) <= 2 * MAX_VEC,
        abs(r.y as int) <= 2 * MAX_VEC,
{
    proof {
        lemma_offset_bound(plane.x as int, x as int);
        lemma_offset_bound(plane.y as int, x as int);
    }
    let c: i64 = 2 * x as i64 - WIDTH as i64;
    let ox: i64 = div_trunc(plane.x * c, WIDTH as i64);
    let oy: i64 = div_trunc(plane.y * c, WIDTH as i64);
    Vec2 { x: dir.x + ox, y: dir.y + oy }
}

/// Projected height in pixels of a wall at perpendicular distance
/// `num / den`: `HEIGHT / (num / den)` rounded toward zero; a wall at
/// distance zero fills the column.
pub open spec fn wall_height(num: int, den: int) -> int {
    if num <= 0 {
        HEIGHT as int
    } else {
        HEIGHT * den / num
    }
}

/// First row of a wall slice of height `h`, centered on the screen.
pub open spec fn span_start(h: int) -> int {
    let s = HEIGHT / 2 - h / 2;
    if s < 0 {
        0
    } else {
        s
    }
}

/// End row (exclusive) of a wall slice of height `h`, centered on the screen.
pub open spec fn span_end(h: int) -> int {
    let e = HEIGHT / 2 + h / 2;
    if e >= HEIGHT {
        HEIGHT - 1
    } else {
        e
    }
}

/// Rows `[start, end)` of the slice drawn for a wall at perpendicular
/// distance `num / den`. Unless the slice is clipped by the screen, it is
/// symmetric around the screen's middle row.
pub fn wall_span(num: i64, den: i64) -> (r: (i32, i32))
    requires
        0 <= num,
        0 <= den <= MAX_RAY,
    ensures
        r.0 == span_start(wall_height(num as int, den as int)),
        r.1 == span_end(wall_height(num as int, den as int)),
        0 <= r.0 <= HEIGHT / 2 <= r.1 < HEIGHT,
        wall_height(num as int, den as int) / 2 < HEIGHT / 2 ==> HEIGHT / 2 - r.0 == r.1 - HEIGHT / 2,
{
    let h: i64 = if num == 0 {
        HEIGHT as i64
    } else {
        assert(HEIGHT * den <= HEIGHT * MAX_RAY) by (nonlinear_arith)
            requires 0 <= den <= MAX_RAY;
        assert((HEIGHT * den) / (num as int) <= HEIGHT * den) by (nonlinear_arith)
            requires num >= 1, HEIGHT * den >= 0;
        HEIGHT as i64 * den / num
    };
    let half: i64 = HEIGHT as i64 / 2;
    let mut start: i64 = half - h / 2;
    let mut end: i64 = half + h / 2;
    if start < 0 {
        start = 0;
    }
    if end >= HEIGHT as i64 {
        end = HEIGHT as i64 - 1;
    }
    (start as i32, end as i32)
}

/// `c` as seen on a face whose last crossed axis is `side`: faces crossed
/// along y (side 1) show every channel halved.
pub open spec fn shaded(c: Rgba, side: int) -> Rgba {
    if side == 1 {
        Rgba { r: c.r / 2, g: c.g / 2, b: c.b / 2, a: c.a / 2 }
    } else {
        c
    }
}

pub fn shade(c: Rgba, side: u8) -> (r: Rgba)
    ensures
        r == shaded(c, side as int),
{
    if side == 1 {
        Rgba { r: c.r / 2, g: c.g / 2, b: c.b / 2, a: c.a / 2 }
    } else {
        c
    }
}

/// The part of one screen column that shows a wall: rows `[start, end)`
/// in `color`.
#[derive(Clone, Copy, Debug, PartialEq, Eq, Structural)]
pub struct Slice {
    pub start: i32,
    pub end: i32,
    pub color: Rgba,
}

/// Numerator of the perpendicular distance of walk `w`.
pub open spec fn hit_num(w: Walk) -> int {
    (if w.side == 0 { w.nx } else { w.ny }) - FIX_ONE
}

/// Denominator of the perpendicular distance of walk `w` of `ray`.
pub open spec fn hit_den(w: Walk, ray: Vec2) -> int {
    if w.side == 0 { abs(ray.x as int) } else { abs(ray.y as int) }
}

/// The wall slice that column `x` of the screen shows of world `s`, or
/// `None` where its ray escapes the world.
pub open spec fn column_slice(s: GameState, x: int) -> Option<Slice> {
    let ray = column_ray(s.direction, s.plane, x);
    match cast(s.world@, s.position, ray) {
        None => None,
        Some(w) => {
            let h = wall_height(hit_num(w), hit_den(w, ray));
            let id = s.world@[cell_index(w.map_x, w.map_y)];
            Some(Slice {
                start: span_start(h) as i32,
                end: span_end(h) as i32,
                color: shaded(s.entity_spec(id as int).color, w.side),
            })
        },
    }
}

/// Casts the ray of screen column `x` and resolves the wall it strikes to
/// the rows and shaded color to draw.
pub fn cast_column(state: &GameState, x: u32) -> (r: Option<Slice>)
    requires
        state.wf(),
        x < WIDTH,
    ensures
        r == column_slice(*state, x as int),
        r is Some ==> 0 <= r->0.start <= r->0.end < HEIGHT,
{
    proof {
        lemma_norm_bounds(state.direction);
        lemma_norm_bounds(state.plane);
    }
    let ray = camera_ray(state.direction, state.plane, x);
    match cast_ray(&state.world, state.position, ray) {
        None => None,
        Some(hit) => {
            let (start, end) = wall_span(hit.dist_num, hit.dist_den);
            let k: usize = (hit.map_x + WORLD * hit.map_y) as usize;
            let id: u32 = state.world[k];
            let entity: &Entity = &state.entities[(id - 1) as usize];
            Some(Slice { start, end, color: shade(entity.color, hit.side) })
        },
    }
}

/// A wall seen on a face crossed along y shows exactly half of each
/// channel, rounded down, of the same wall seen on a face crossed along x.
pub proof fn lemma_side_shading(c: Rgba)
    ensures
        shaded(c, 1) == (Rgba {
            r: shaded(c, 0).r / 2,
            g: shaded(c, 0).g / 2,
            b: shaded(c, 0).b / 2,
            a: shaded(c, 0).a / 2,
        }),
{
}

/// The cell `j` steps from column `m` in the direction of the sign of `r`.
pub open spec fn along(m: int, r: int, j: int) -> int {
    if r < 0 {
        m - j
    } else {
        m + j
    }
}

proof fn lemma_walk_along_x(grid: Seq<u32>, w: Walk, ray: Vec2, fuel: nat, k: int)
    requires
        grid.len() == grid_len(),
        ray.y == 0,
        ray.x != 0,
        1 <= k <= fuel,
        in_world(w.map_x, w.map_y),
        in_world(along(w.map_x, ray.x as int, k), w.map_y),
        forall|j: int| 1 <= j < k ==> grid[#[trigger] cell_index(along(w.map_x, ray.x as int, j), w.map_y)] == 0,
        grid[cell_index(along(w.map_x, ray.x as int, k), w.map_y)] != 0,
    ensures
        walk_from(grid, w, ray, fuel) == Some(
            Walk { map_x: along(w.map_x, ray.x as int, k), nx: w.nx + k * FIX_ONE, side: 0, ..w },
        ),
    decreases k,
{
    let n = walk_advance(w, ray);
    assert(n == Walk { map_x: along(w.map_x, ray.x as int, 1), nx: w.nx + FIX_ONE, side: 0, ..w });
    if k > 1 {
        assert(grid[cell_index(along(w.map_x, ray.x as int, 1), w.map_y)] == 0);
        assert forall|j: int| 1 <= j < k - 1 implies grid[#[trigger] cell_index(along(n.map_x, ray.x as int, j), n.map_y)]
            == 0 by {
            assert(along(n.map_x, ray.x as int, j) == along(w.map_x, ray.x as int, j + 1));
        }
        assert(along(n.map_x, ray.x as int, k - 1) == along(w.map_x, ray.x as int, k));
        lemma_walk_along_x(grid, n, ray, (fuel - 1) as nat, k - 1);
    }
}

/// A ray cast straight along the x axis, whose first wall is `k` cells
/// ahead on the camera's row, strikes that wall's near face: its
/// perpendicular distance is the distance from the camera to the first cell
/// boundary plus `k - 1` whole cells, over the ray's length. From the middle
/// of a cell, with a unit ray, that is `k - 1/2` cells.
pub proof fn lemma_axis_distance(grid: Seq<u32>, pos: Vec2, ray: Vec2, k: int)
    requires
        grid.len() == grid_len(),
        pos_in_world(pos),
        ray.y == 0,
        ray.x != 0,
        1 <= k <= MAX_STEPS,
        in_world(along(pos.x as int / FIX_ONE as int, ray.x as int, k), pos.y as int / FIX_ONE as int),
        forall|j: int|
            1 <= j < k ==> grid[#[trigger] cell_index(along(pos.x as int / FIX_ONE as int, ray.x as int, j), pos.y as int / FIX_ONE as int)]
                == 0,
        grid[cell_index(along(pos.x as int / FIX_ONE as int, ray.x as int, k), pos.y as int / FIX_ONE as int)] != 0,
    ensures
        cast(grid, pos, ray) is Some,
        cast(grid, pos, ray)->0.map_x == along(pos.x as int / FIX_ONE as int, ray.x as int, k),
        cast(grid, pos, ray)->0.map_y == pos.y as int / FIX_ONE as int,
        cast(grid, pos, ray)->0.side == 0,
        hit_num(cast(grid, pos, ray)->0) == first_boundary(pos.x as int, ray.x as int) + (k - 1) * FIX_ONE,
        hit_den(cast(grid, pos, ray)->0, ray) == abs(ray.x as int),
{
    let w = walk_start(pos, ray);
    lemma_walk_along_x(grid, w, ray, MAX_STEPS as nat, k);
}

proof fn lemma_walk_along_y(grid: Seq<u32>, w: Walk, ray: Vec2, fuel: nat, k: int)
    requires
        grid.len() == grid_len(),
        ray.x == 0,
        ray.y != 0,
        1 <= k <= fuel,
        in_world(w.map_x, w.map_y),
        in_world(w.map_x, along(w.map_y, ray.y as int, k)),
        forall|j: int| 1 <= j < k ==> grid[#[trigger] cell_index(w.map_x, along(w.map_y, ray.y as int, j))] == 0,
        grid[cell_index(w.map_x, along(w.map_y, ray.y as int, k))] != 0,
    ensures
        walk_from(grid, w, ray, fuel) == Some(
            Walk { map_y: along(w.map_y, ray.y as int, k), ny: w.ny + k * FIX_ONE, side: 1, ..w },
        ),
    decreases k,
{
    let n = walk_advance(w, ray);
    assert(n == Walk { map_y: along(w.map_y, ray.y as int, 1), ny: w.ny + FIX_ONE, side: 1, ..w });
    if k > 1 {
        assert(grid[cell_index(w.map_x, along(w.map_y, ray.y as int, 1))] == 0);
        assert forall|j: int| 1 <= j < k - 1 implies grid[#[trigger] cell_index(n.map_x, along(n.map_y, ray.y as int, j))]
            == 0 by {
            assert(along(n.map_y, ray.y as int, j) == along(w.map_y, ray.y as int, j + 1));
        }
        assert(along(n.map_y, ray.y as int, k - 1) == along(w.map_y, ray.y as int, k));
        lemma_walk_along_y(grid, n, ray, (fuel - 1) as nat, k - 1);
    }
}

/// A ray cast straight along the y axis, whose first wall is `k` cells
/// ahead on the camera's column, strikes that wall's near face: its
/// perpendicular distance is the distance from the camera to the first cell
/// boundary plus `k - 1` whole cells, over the ray's length. From the middle
/// of a cell, with a unit ray, that is `k - 1/2` cells.
pub proof fn lemma_axis_distance_y(grid: Seq<u32>, pos: Vec2, ray: Vec2, k: int)
    requires
        grid.len() == grid_len(),
        pos_in_world(pos),
        ray.x == 0,
        ray.y != 0,
        1 <= k <= MAX_STEPS,
        in_world(pos.x as int / FIX_ONE as int, along(pos.y as int / FIX_ONE as int, ray.y as int, k)),
        forall|j: int|
            1 <= j < k ==> grid[#[trigger] cell_index(pos.x as int / FIX_ONE as int, along(pos.y as int / FIX_ONE as int, ray.y as int, j))]
                == 0,
        grid[cell_index(pos.x as int / FIX_ONE as int, along(pos.y as int / FIX_ONE as int, ray.y as int, k))] != 0,
    ensures
        cast(grid, pos, ray) is Some,
        cast(grid, pos, ray)->0.map_y == along(pos.y as int / FIX_ONE as int, ray.y as int, k),
        cast(grid, pos, ray)->0.map_x == pos.x as int / FIX_ONE as int,
        cast(grid, pos, ray)->0.side == 1,
        hit_num(cast(grid, pos, ray)->0) == first_boundary(pos.y as int, ray.y as int) + (k - 1) * FIX_ONE,
        hit_den(cast(grid, pos, ray)->0, ray) == abs(ray.y as int),
{
    let w = walk_start(pos, ray);
    lemma_walk_along_y(grid, w, ray, MAX_STEPS as nat, k);
}

} // verus!
