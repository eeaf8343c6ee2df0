use vstd::prelude::*;
use crate::objects::{Entity, Object, Rgba};
use crate::raycast::abs;
use crate::util::{div_trunc, tdiv, Vec2, Vec2U};
use crate::{FIX_ONE, WORLD};

verus! {

/// Bound on the length of the direction and plane vectors, in fixed point.
pub const MAX_VEC: i64 = 16777216;

/// Bound on the magnitude of a position coordinate, in fixed point.
pub const MAX_POS: i64 = 1099511627776;

/// Number of cells in the world grid.
pub open spec fn grid_len() -> int {
    WORLD as int * WORLD as int
}

/// Index of cell `(x, y)` in the row-major world grid.
pub open spec fn cell_index(x: int, y: int) -> int {
    x + WORLD as int * y
}

/// Whether the segment of `e` covers cell `(x, y)`: a horizontal run over
/// `[start.x, end.x)` on row `end.y` when `end.x > start.x`, else a vertical
/// run over `[start.y, end.y)` on column `start.x`.
pub open spec fn covers(e: Entity, x: int, y: int) -> bool {
    if e.end.x > e.start.x {
        e.start.x <= x < e.end.x && y == e.end.y
    } else {
        x == e.start.x && e.start.y <= y < e.end.y
    }
}

/// Whether every cell that `e` covers lies inside the world.
pub open spec fn fits_world(e: Entity) -> bool {
    if e.end.x > e.start.x {
        e.end.x <= WORLD && e.end.y < WORLD
    } else {
        e.start.x < WORLD && e.end.y <= WORLD
    }
}

/// The identifier that cell `(x, y)` holds once the walls `es` have been
/// registered in order: that of the last wall covering it, or 0.
pub open spec fn painted(es: Seq<Entity>, x: int, y: int) -> int
    decreases es.len(),
{
    if es.len() == 0 {
        0
    } else if covers(es.last(), x, y) {
        es.len() as int
    } else {
        painted(es.drop_last(), x, y)
    }
}

pub open spec fn norm2(v: Vec2) -> int {
    v.x * v.x + v.y * v.y
}

/// `v` rotated by the angle whose cosine and sine are `c / FIX_ONE` and `s / FIX_ONE`.
pub open spec fn rotated(v: Vec2, c: int, s: int) -> Vec2 {
    Vec2 {
        x: tdiv(v.x * c - v.y * s, FIX_ONE as int) as i64,
        y: tdiv(v.x * s + v.y * c, FIX_ONE as int) as i64,
    }
}

/// `p` moved along `d` by `speed / FIX_ONE` times its length.
pub open spec fn moved(p: Vec2, d: Vec2, speed: int) -> Vec2 {
    Vec2 {
        x: (p.x + tdiv(d.x * speed, FIX_ONE as int)) as i64,
        y: (p.y + tdiv(d.y * speed, FIX_ONE as int)) as i64,
    }
}

pub open spec fn pos_in_range(p: Vec2) -> bool {
    -MAX_POS <= p.x <= MAX_POS && -MAX_POS <= p.y <= MAX_POS
}

/// Whether the move of `p` along `d` by `speed` stays in the representable range.
pub open spec fn move_fits(p: Vec2, d: Vec2, speed: int) -> bool {
    let dx = p.x + tdiv(d.x * speed, FIX_ONE as int);
    let dy = p.y + tdiv(d.y * speed, FIX_ONE as int);
    -MAX_POS <= dx <= MAX_POS && -MAX_POS <= dy <= MAX_POS
}

pub open spec fn wall_spec(sx: u32, sy: u32, ex: u32, ey: u32, c: Rgba) -> Entity {
    Entity { kind: Object::WALL, start: Vec2U { x: sx, y: sy }, end: Vec2U { x: ex, y: ey }, color: c }
}

/// The walls of the starting world, in the order of their identifiers: the
/// four borders of the square, then a horizontal and two vertical partitions.
pub open spec fn starting_walls() -> Seq<Entity> {
    let border = Rgba { r: 112, g: 128, b: 144, a: 255 };
    let m = (WORLD - 1) as u32;
    seq![
        wall_spec(0, 0, 0, m, Rgba { r: 128, g: 128, b: 144, a: 255 }),
        wall_spec(0, 0, m, 0, border),
        wall_spec(m, 0, m, m, border),
        wall_spec(0, m, m, m, border),
        wall_spec(3, 5, 7, 5, border),
        wall_spec(3, 6, 3, 9, border),
        wall_spec(6, 6, 6, 9, border),
    ]
}

/// The camera and the world it looks at: a grid of cell identifiers (0 is
/// empty) and the walls they refer to; identifier `i` names `entities[i - 1]`.
pub struct GameState {
    pub position: Vec2,
    pub direction: Vec2,
    pub plane: Vec2,
    pub world: Vec<u32>,
    pub entities: Vec<Entity>,
}

impl GameState {
    /// The grid has its full size and holds exactly the cells that the
    /// stored walls cover, so every nonzero cell names a stored entity; the
    /// camera's vectors are within bounds.
    pub open spec fn wf(&self) -> bool {
        &&& self.world@.len() == grid_len()
        &&& self.entities@.len() < u32::MAX
        &&& forall|i: int| 0 <= i < self.world@.len() ==> self.world@[i] <= self.entities@.len()
        &&& forall|x: int, y: int|
            0 <= x < WORLD && 0 <= y < WORLD ==> #[trigger] self.world@[cell_index(x, y)] == painted(
                self.entities@,
                x,
                y,
            )
        &&& norm2(self.direction) <= MAX_VEC * MAX_VEC
        &&& norm2(self.plane) <= MAX_VEC * MAX_VEC
        &&& pos_in_range(self.position)
    }

    /// The entity registered under identifier `id`.
    pub open spec fn entity_spec(&self, id: int) -> Entity {
        self.entities@[id - 1]
    }

    /// A world with an empty grid, no entities and the given camera.
    pub fn with_camera(position: Vec2, direction: Vec2, plane: Vec2) -> (s: Self)
        requires
            norm2(direction) <= MAX_VEC * MAX_VEC,
            norm2(plane) <= MAX_VEC * MAX_VEC,
            pos_in_range(position),
        ensures
            s.wf(),
            s.position == position,
            s.direction == direction,
            s.plane == plane,
            s.entities@.len() == 0,
            forall|i: int| 0 <= i < grid_len() ==> s.world@[i] == 0,
    {
        let n: usize = (WORLD * WORLD) as usize;
        let mut world: Vec<u32> = Vec::with_capacity(n);
        let mut i: usize = 0;
        while i < n
            invariant
                n == grid_len(),
                i <= n,
                world@.len() == i,
                forall|j: int| 0 <= j < i ==> world@[j] == 0,
            decreases n - i,
        {
            world.push(0);
            i += 1;
        }
        GameState { position, direction, plane, world, entities: Vec::new() }
    }

    /// The starting world: a bordered square room with two interior
    /// partitions, and the camera in its middle looking toward `-x`.
    pub fn new() -> (s: Self)
        ensures
            s.wf(),
            s.entities@ == starting_walls(),
            s.position.x == 12 * FIX_ONE,
            s.position.y == 12 * FIX_ONE,
            s.direction.x == -FIX_ONE,
            s.direction.y == 0,
            s.plane.x == 0,
            s.plane.y == 49152,
    {
        let mut state = GameState::with_camera(
            Vec2::new(12 * FIX_ONE, 12 * FIX_ONE),
            Vec2::new(-FIX_ONE, 0),
            Vec2::new(0, 49152),
        );
        let border = Rgba::rgb(112, 128, 144);
        state.add_entity(Entity::wall(Vec2U::new(0, 0), Vec2U::new(0, WORLD - 1), Rgba::rgb(128, 128, 144)));
        state.add_entity(Entity::wall(Vec2U::new(0, 0), Vec2U::new(WORLD - 1, 0), border));
        state.add_entity(Entity::wall(Vec2U::new(WORLD - 1, 0), Vec2U::new(WORLD - 1, WORLD - 1), border));
        state.add_entity(Entity::wall(Vec2U::new(0, WORLD - 1), Vec2U::new(WORLD - 1, WORLD - 1), border));
        state.add_entity(Entity::wall(Vec2U::new(3, 5), Vec2U::new(7, 5), border));
        state.add_entity(Entity::wall(Vec2U::new(3, 6), Vec2U::new(3, 9), border));
        state.add_entity(Entity::wall(Vec2U::new(6, 6), Vec2U::new(6, 9), border));
        state
    }

    /// Registers `entity` under the next identifier (the entity count plus
    /// one) and writes that identifier into every cell its segment covers.
    pub fn add_entity(&mut self, entity: Entity)
        requires
            old(self).wf(),
            old(self).entities@.len() + 1 < u32::MAX,
            fits_world(entity),
        ensures
            final(self).wf(),
            final(self).entities@ == old(self).entities@.push(entity),
            final(self).entity_spec(old(self).entities@.len() + 1int) == entity,
            final(self).position == old(self).position,
            final(self).direction == old(self).direction,
            final(self).plane == old(self).plane,
            forall|x: int, y: int|
                0 <= x < WORLD && 0 <= y < WORLD ==> #[trigger] final(self).world@[cell_index(x, y)]
                    == if covers(entity, x, y) {
                    (old(self).entities@.len() + 1) as u32
                } else {
                    old(self).world@[cell_index(x, y)]
                },
    {
        let count: u32 = (self.entities.len() + 1) as u32;
        let start = entity.start;
        let end = entity.end;
        if end.x > start.x {
            let mut i: u32 = start.x;
            while i < end.x
                invariant
                    start.x <= i <= end.x,
                    end.x <= WORLD,
                    end.y < WORLD,
                    self.entities@ == old(self).entities@,
                    count == old(self).entities@.len() + 1,
                    self.position == old(self).position,
                    self.direction == old(self).direction,
                    self.plane == old(self).plane,
                    self.world@.len() == grid_len(),
                    forall|x: int, y: int|
                        0 <= x < WORLD && 0 <= y < WORLD ==> #[trigger] self.world@[cell_index(x, y)]
                            == if start.x <= x < i && y == end.y {
                            count
                        } else {
                            old(self).world@[cell_index(x, y)]
                        },
                decreases end.x - i,
            {
                let k: usize = (i + WORLD * end.y) as usize;
                self.world.set(k, count);
                proof {
                    assert forall|x: int, y: int| 0 <= x < WORLD && 0 <= y < WORLD implies
                        cell_index(x, y) == k <==> (x == i && y == end.y) by {
                        if cell_index(x, y) == k {
                            assert(x == i && y == end.y) by (nonlinear_arith)
                                requires x + 25 * y == i + 25 * end.y, 0 <= x < 25, i < 25;
                        }
                    }
                }
                i += 1;
            }
        } else {
            let mut i: u32 = start.y;
            while i < end.y
                invariant
                    start.y <= i,
                    i <= end.y || i == start.y,
                    start.x < WORLD,
                    end.y <= WORLD,
                    self.entities@ == old(self).entities@,
                    count == old(self).entities@.len() + 1,
                    self.position == old(self).position,
                    self.direction == old(self).direction,
                    self.plane == old(self).plane,
                    self.world@.len() == grid_len(),
                    forall|x: int, y: int|
                        0 <= x < WORLD && 0 <= y < WORLD ==> #[trigger] self.world@[cell_index(x, y)]
                            == if x == start.x && start.y <= y < i {
                            count
                        } else {
                            old(self).world@[cell_index(x, y)]
                        },
                decreases end.y - i,
            {
                let k: usize = (start.x + WORLD * i) as usize;
                self.world.set(k, count);
                proof {
                    assert forall|x: int, y: int| 0 <= x < WORLD && 0 <= y < WORLD implies
                        cell_index(x, y) == k <==> (x == start.x && y == i) by {
                        if cell_index(x, y) == k {
                            assert(x == start.x && y == i) by (nonlinear_arith)
                                requires x + 25 * y == start.x + 25 * i, 0 <= x < 25, start.x < 25;
                        }
                    }
                }
                i += 1;
            }
        }
        self.entities.push(entity);
        proof {
            assert(self.entities@.drop_last() == old(self).entities@);
            assert forall|x: int, y: int| 0 <= x < WORLD && 0 <= y < WORLD implies
                self.world@[cell_index(x, y)] == painted(self.entities@, x, y) by {
                assert(self.world@[cell_index(x, y)] == if covers(entity, x, y) {
                    count
                } else {
                    old(self).world@[cell_index(x, y)]
                });
                assert(old(self).world@[cell_index(x, y)] == painted(old(self).entities@, x, y));
                assert(self.entities@.last() == entity);
            }
            assert forall|j: int| 0 <= j < self.world@.len() implies self.world@[j] <= self.entities@.len() by {
                let x = j % 25;
                let y = j / 25;
                assert(j == cell_index(x, y));
                assert(self.world@[cell_index(x, y)] <= self.entities@.len());
            }
        }
    }

    /// Turns the camera: the direction and the plane are each rotated by the
    /// angle whose cosine and sine are `cos / FIX_ONE` and `sin / FIX_ONE`.
    pub fn rotate(&mut self, cos: i64, sin: i64)
        requires
            old(self).wf(),
            cos * cos + sin * sin <= FIX_ONE * FIX_ONE,
        ensures
            final(self).wf(),
            final(self).direction == rotated(old(self).direction, cos as int, sin as int),
            final(self).plane == rotated(old(self).plane, cos as int, sin as int),
            final(self).position == old(self).position,
            final(self).world == old(self).world,
            final(self).entities == old(self).entities,
    {
        proof {
            lemma_rotate_norm(self.direction, cos as int, sin as int);
            lemma_rotate_norm(self.plane, cos as int, sin as int);
        }
        self.direction = rotate_vec(self.direction, cos, sin);
        self.plane = rotate_vec(self.plane, cos, sin);
    }

    /// Moves the camera along its direction by `speed / FIX_ONE` times the
    /// direction's length; a negative speed moves it backward. Nothing in
    /// the world blocks the move. A move that would take the position out of
    /// the representable range leaves it where it was.
    pub fn movement(&mut self, speed: i64)
        requires
            old(self).wf(),
            -MAX_VEC <= speed <= MAX_VEC,
        ensures
            final(self).wf(),
            final(self).position == if move_fits(old(self).position, old(self).direction, speed as int) {
                moved(old(self).position, old(self).direction, speed as int)
            } else {
                old(self).position
            },
            final(self).direction == old(self).direction,
            final(self).plane == old(self).plane,
            final(self).world == old(self).world,
            final(self).entities == old(self).entities,
    {
        proof {
            lemma_vec_bounds(self.direction);
            lemma_mul_bound(self.direction.x as int, speed as int);
            lemma_mul_bound(self.direction.y as int, speed as int);
        }
        let dx: i64 = div_trunc(self.direction.x * speed, FIX_ONE);
        let dy: i64 = div_trunc(self.direction.y * speed, FIX_ONE);
        proof {
            lemma_tdiv_bound(self.direction.x * speed, FIX_ONE as int);
            lemma_tdiv_bound(self.direction.y * speed, FIX_ONE as int);
        }
        let nx: i64 = self.position.x + dx;
        let ny: i64 = self.position.y + dy;
        if -MAX_POS <= nx && nx <= MAX_POS && -MAX_POS <= ny && ny <= MAX_POS {
            self.position = Vec2 { x: nx, y: ny };
        }
    }
}

fn rotate_vec(v: Vec2, c: i64, s: i64) -> (r: Vec2)
    requires
        norm2(v) <= MAX_VEC * MAX_VEC,
        c * c + s * s <= FIX_ONE * FIX_ONE,
    ensures
        r == rotated(v, c as int, s as int),
{
    proof {
        lemma_vec_bounds(v);
        lemma_unit_bounds(c as int, s as int);
        lemma_rotate_terms(v.x as int, v.y as int, c as int, s as int);
    }
    Vec2 {
        x: div_trunc(v.x * c - v.y * s, FIX_ONE),
        y: div_trunc(v.x * s + v.y * c, FIX_ONE),
    }
}

proof fn lemma_vec_bounds(v: Vec2)
    requires
        norm2(v) <= MAX_VEC * MAX_VEC,
    ensures
        -MAX_VEC <= v.x <= MAX_VEC,
        -MAX_VEC <= v.y <= MAX_VEC,
{
    let m = MAX_VEC as int;
    let x = v.x as int;
    let y = v.y as int;
    assert(-m <= x <= m && -m <= y <= m) by (nonlinear_arith)
        requires x * x + y * y <= m * m, m > 0;
}

proof fn lemma_unit_bounds(c: int, s: int)
    requires
        c * c + s * s <= FIX_ONE * FIX_ONE,
    ensures
        -FIX_ONE <= c <= FIX_ONE,
        -FIX_ONE <= s <= FIX_ONE,
{
    let o = FIX_ONE as int;
    assert(-o <= c <= o && -o <= s <= o) by (nonlinear_arith)
        requires c * c + s * s <= o * o, o > 0;
}

proof fn lemma_mul_bound(a: int, b: int)
    requires
        -MAX_VEC <= a <= MAX_VEC,
        -MAX_VEC <= b <= MAX_VEC,
    ensures
        -MAX_VEC * MAX_VEC <= a * b <= MAX_VEC * MAX_VEC,
{
    let m = MAX_VEC as int;
    assert(-m * m <= a * b <= m * m) by (nonlinear_arith)
        requires -m <= a <= m, -m <= b <= m;
}

proof fn lemma_rotate_terms(x: int, y: int, c: int, s: int)
    requires
        -MAX_VEC <= x <= MAX_VEC,
        -MAX_VEC <= y <= MAX_VEC,
        -FIX_ONE <= c <= FIX_ONE,
        -FIX_ONE <= s <= FIX_ONE,
    ensures
        -MAX_VEC * FIX_ONE <= x * c <= MAX_VEC * FIX_ONE,
        -MAX_VEC * FIX_ONE <= y * s <= MAX_VEC * FIX_ONE,
        -MAX_VEC * FIX_ONE <= x * s <= MAX_VEC * FIX_ONE,
        -MAX_VEC * FIX_ONE <= y * c <= MAX_VEC * FIX_ONE,
{
    let m = MAX_VEC as int;
    let o = FIX_ONE as int;
    assert(-m * o <= x * c <= m * o) by (nonlinear_arith)
        requires -m <= x <= m, -o <= c <= o, m > 0, o > 0;
    assert(-m * o <= y * s <= m * o) by (nonlinear_arith)
        requires -m <= y <= m, -o <= s <= o, m > 0, o > 0;
    assert(-m * o <= x * s <= m * o) by (nonlinear_arith)
        requires -m <= x <= m, -o <= s <= o, m > 0, o > 0;
    assert(-m * o <= y * c <= m * o) by (nonlinear_arith)
        requires -m <= y <= m, -o <= c <= o, m > 0, o > 0;
}

/// The quotient rounded toward zero differs from the exact one by less
/// than one.
pub proof fn lemma_tdiv_bound(a: int, b: int)
    requires
        b > 0,
    ensures
        a >= 0 ==> 0 <= tdiv(a, b) * b <= a < tdiv(a, b) * b + b,
        a < 0 ==> a <= tdiv(a, b) * b <= 0 && tdiv(a, b) * b - b < a,
{
    if a >= 0 {
        assert(0 <= (a / b) * b <= a < (a / b) * b + b) by (nonlinear_arith)
            requires a >= 0, b > 0;
    } else {
        let q = (-a) / b;
        assert(0 <= q * b <= -a < q * b + b) by (nonlinear_arith)
            requires -a > 0, b > 0, q == (-a) / b;
        assert(tdiv(a, b) * b == -(q * b)) by (nonlinear_arith)
            requires tdiv(a, b) == -q;
    }
}

proof fn lemma_tdiv_square(a: int, b: int)
    requires
        b > 0,
    ensures
        tdiv(a, b) * tdiv(a, b) * (b * b) <= a * a,
{
    lemma_tdiv_bound(a, b);
    let t = tdiv(a, b);
    if a >= 0 {
        assert(t * t * (b * b) <= a * a) by (nonlinear_arith)
            requires 0 <= t * b <= a;
    } else {
        assert(t * t * (b * b) <= a * a) by (nonlinear_arith)
            requires a <= t * b <= 0;
    }
}

/// A rotation whose cosine and sine have squares summing to at most one
/// never lengthens a vector.
pub proof fn lemma_rotate_norm(v: Vec2, c: int, s: int)
    requires
        norm2(v) <= MAX_VEC * MAX_VEC,
        c * c + s * s <= FIX_ONE * FIX_ONE,
    ensures
        norm2(rotated(v, c, s)) <= norm2(v),
        rotated(v, c, s).x == tdiv(v.x * c - v.y * s, FIX_ONE as int),
        rotated(v, c, s).y == tdiv(v.x * s + v.y * c, FIX_ONE as int),
{
    let o = FIX_ONE as int;
    let x = v.x as int;
    let y = v.y as int;
    lemma_vec_bounds(v);
    lemma_unit_bounds(c, s);
    lemma_rotate_terms(x, y, c, s);
    let a = x * c - y * s;
    let b = x * s + y * c;
    let t1 = tdiv(a, o);
    let t2 = tdiv(b, o);
    lemma_tdiv_square(a, o);
    lemma_tdiv_square(b, o);
    lemma_tdiv_bound(a, o);
    lemma_tdiv_bound(b, o);
    let xx = x * x;
    let yy = y * y;
    let cc = c * c;
    let ss = s * s;
    let k = (x * y) * (c * s);
    let u1 = x * c;
    let q1 = y * s;
    let u2 = x * s;
    let q2 = y * c;
    assert(a * a == u1 * u1 - 2 * (u1 * q1) + q1 * q1) by (nonlinear_arith)
        requires a == u1 - q1;
    assert(b * b == u2 * u2 + 2 * (u2 * q2) + q2 * q2) by (nonlinear_arith)
        requires b == u2 + q2;
    assert(u1 * u1 == xx * cc) by (nonlinear_arith)
        requires u1 == x * c, xx == x * x, cc == c * c;
    assert(q1 * q1 == yy * ss) by (nonlinear_arith)
        requires q1 == y * s, yy == y * y, ss == s * s;
    assert(u2 * u2 == xx * ss) by (nonlinear_arith)
        requires u2 == x * s, xx == x * x, ss == s * s;
    assert(q2 * q2 == yy * cc) by (nonlinear_arith)
        requires q2 == y * c, yy == y * y, cc == c * c;
    assert(u1 * q1 == k) by (nonlinear_arith)
        requires u1 == x * c, q1 == y * s, k == (x * y) * (c * s);
    assert(u2 * q2 == k) by (nonlinear_arith)
        requires u2 == x * s, q2 == y * c, k == (x * y) * (c * s);
    assert((xx + yy) * (cc + ss) == xx * cc + xx * ss + yy * cc + yy * ss) by (nonlinear_arith);
    assert(xx >= 0 && yy >= 0) by (nonlinear_arith)
        requires xx == x * x, yy == y * y;
    assert(a * a + b * b == (x * x + y * y) * (c * c + s * s));
    assert((x * x + y * y) * (c * c + s * s) <= (x * x + y * y) * (o * o)) by (nonlinear_arith)
        requires c * c + s * s <= o * o, x * x + y * y >= 0;
    assert(t1 * t1 + t2 * t2 <= x * x + y * y) by (nonlinear_arith)
        requires
            t1 * t1 * (o * o) <= a * a,
            t2 * t2 * (o * o) <= b * b,
            a * a + b * b <= (x * x + y * y) * (o * o),
            o > 0;
    assert(-MAX_VEC * FIX_ONE * 2 <= a <= MAX_VEC * FIX_ONE * 2);
    assert(-MAX_VEC * FIX_ONE * 2 <= t1 * o <= MAX_VEC * FIX_ONE * 2);
    assert(-MAX_VEC * FIX_ONE * 2 <= t2 * o <= MAX_VEC * FIX_ONE * 2);
    assert(-MAX_VEC * 2 <= t1 <= MAX_VEC * 2) by (nonlinear_arith)
        requires -MAX_VEC * FIX_ONE * 2 <= t1 * o <= MAX_VEC * FIX_ONE * 2, o == FIX_ONE;
    assert(-MAX_VEC * 2 <= t2 <= MAX_VEC * 2) by (nonlinear_arith)
        requires -MAX_VEC * FIX_ONE * 2 <= t2 * o <= MAX_VEC * FIX_ONE * 2, o == FIX_ONE;
}

/// Moving forward by `speed` and then back by the same speed returns the
/// camera exactly to where it was.
pub proof fn lemma_move_back(p: Vec2, d: Vec2, speed: int)
    requires
        pos_in_range(p),
        move_fits(p, d, speed),
    ensures
        move_fits(moved(p, d, speed), d, -speed),
        moved(moved(p, d, speed), d, -speed) == p,
{
    let o = FIX_ONE as int;
    let ax = d.x * speed;
    let ay = d.y * speed;
    assert(d.x * (-speed) == -ax) by (nonlinear_arith)
        requires ax == d.x * speed;
    assert(d.y * (-speed) == -ay) by (nonlinear_arith)
        requires ay == d.y * speed;
    lemma_tdiv_neg(ax, o);
    lemma_tdiv_neg(ay, o);
}

proof fn lemma_tdiv_neg(a: int, b: int)
    requires
        b > 0,
    ensures
        tdiv(-a, b) == -tdiv(a, b),
{
}

/// Bound of one coordinate after turning by an angle and back: `e` is
/// `FIX_ONE²` times the error, made of the shortfall `x * d` of the pair
/// from a unit vector and three rounding terms below `FIX_ONE²` each.
proof fn lemma_back_error(e: int, x: int, d: int, r1: int, r2: int, r3: int, c: int, s: int)
    requires
        e == -(x * d) - r1 * c - r2 * s - FIX_ONE * r3,
        d >= 0,
        -FIX_ONE < r1 < FIX_ONE,
        -FIX_ONE < r2 < FIX_ONE,
        -FIX_ONE < r3 < FIX_ONE,
        -FIX_ONE <= c <= FIX_ONE,
        -FIX_ONE <= s <= FIX_ONE,
    ensures
        abs(e) <= abs(x) * d + 3 * (FIX_ONE * FIX_ONE),
{
    let o = FIX_ONE as int;
    let u1 = r1 * c;
    let u2 = r2 * s;
    let u3 = o * r3;
    let q = x * d;
    assert(-(o * o) <= u1 <= o * o) by (nonlinear_arith)
        requires u1 == r1 * c, -o < r1 < o, -o <= c <= o, o > 0;
    assert(-(o * o) <= u2 <= o * o) by (nonlinear_arith)
        requires u2 == r2 * s, -o < r2 < o, -o <= s <= o, o > 0;
    assert(-(o * o) <= u3 <= o * o) by (nonlinear_arith)
        requires u3 == o * r3, -o < r3 < o, o > 0;
    assert(abs(q) == abs(x) * d) by (nonlinear_arith)
        requires q == x * d, d >= 0, abs(q) == (if q < 0 { -q } else { q }),
            abs(x) == (if x < 0 { -x } else { x });
}

/// Turning by an angle and then by its opposite gives back the direction
/// and plane up to rounding: `FIX_ONE²` times the error in each coordinate
/// is at most `|coordinate|` times the shortfall `FIX_ONE² - cos² - sin²`
/// plus `3 * FIX_ONE²`. For a pair rounded toward zero from a true cosine
/// and sine, that is a few fixed-point units.
pub proof fn lemma_rotate_back(v: Vec2, c: int, s: int)
    requires
        norm2(v) <= MAX_VEC * MAX_VEC,
        c * c + s * s <= FIX_ONE * FIX_ONE,
    ensures
        ({
            let w = rotated(rotated(v, c, s), c, -s);
            let d = FIX_ONE * FIX_ONE - (c * c + s * s);
            &&& (FIX_ONE * FIX_ONE) * abs(w.x - v.x) <= abs(v.x as int) * d + 3 * (FIX_ONE * FIX_ONE)
            &&& (FIX_ONE * FIX_ONE) * abs(w.y - v.y) <= abs(v.y as int) * d + 3 * (FIX_ONE * FIX_ONE)
        }),
{
    let o = FIX_ONE as int;
    let x = v.x as int;
    let y = v.y as int;
    let n = c * c + s * s;
    let d = o * o - n;
    lemma_unit_bounds(c, s);
    lemma_rotate_norm(v, c, s);
    let v1 = rotated(v, c, s);
    assert(c * c + (-s) * (-s) == n) by (nonlinear_arith)
        requires n == c * c + s * s;
    lemma_rotate_norm(v1, c, -s);
    let w = rotated(v1, c, -s);
    let a = x * c - y * s;
    let b = x * s + y * c;
    let t1 = v1.x as int;
    let t2 = v1.y as int;
    let a2 = t1 * c - t2 * (-s);
    let b2 = t1 * (-s) + t2 * c;
    let t3 = w.x as int;
    let t4 = w.y as int;
    lemma_tdiv_bound(a, o);
    lemma_tdiv_bound(b, o);
    lemma_tdiv_bound(a2, o);
    lemma_tdiv_bound(b2, o);
    let r1 = a - t1 * o;
    let r2 = b - t2 * o;
    let r3 = a2 - t3 * o;
    let r4 = b2 - t4 * o;
    assert(a * c + b * s == x * n) by (nonlinear_arith)
        requires a == x * c - y * s, b == x * s + y * c, n == c * c + s * s;
    assert(b * c - a * s == y * n) by (nonlinear_arith)
        requires a == x * c - y * s, b == x * s + y * c, n == c * c + s * s;
    let k1 = t1 * o;
    let k2 = t2 * o;
    assert(a2 == t1 * c + t2 * s && b2 == -(t1 * s) + t2 * c) by (nonlinear_arith)
        requires a2 == t1 * c - t2 * (-s), b2 == t1 * (-s) + t2 * c;
    assert(o * a2 == k1 * c + k2 * s) by (nonlinear_arith)
        requires a2 == t1 * c + t2 * s, k1 == t1 * o, k2 == t2 * o;
    assert(o * b2 == -(k1 * s) + k2 * c) by (nonlinear_arith)
        requires b2 == -(t1 * s) + t2 * c, k1 == t1 * o, k2 == t2 * o;
    assert(k1 * c == a * c - r1 * c && k1 * s == a * s - r1 * s) by (nonlinear_arith)
        requires k1 == a - r1;
    assert(k2 * c == b * c - r2 * c && k2 * s == b * s - r2 * s) by (nonlinear_arith)
        requires k2 == b - r2;
    assert(o * a2 == x * n - r1 * c - r2 * s);
    assert(o * b2 == y * n + r1 * s - r2 * c);
    assert(o * o * t3 == o * a2 - o * r3) by (nonlinear_arith)
        requires t3 * o == a2 - r3;
    assert(o * o * t4 == o * b2 - o * r4) by (nonlinear_arith)
        requires t4 * o == b2 - r4;
    assert(o * o * x == x * d + x * n && o * o * y == y * d + y * n) by (nonlinear_arith)
        requires d == o * o - n;
    assert(o * o * (t3 - x) == o * o * t3 - o * o * x) by (nonlinear_arith);
    assert(o * o * (t4 - y) == o * o * t4 - o * o * y) by (nonlinear_arith);
    assert((-r1) * s == -(r1 * s)) by (nonlinear_arith);
    lemma_back_error(o * o * (t3 - x), x, d, r1, r2, r3, c, s);
    lemma_back_error(o * o * (t4 - y), y, d, r2, -r1, r4, c, s);
    let e3 = o * o * (t3 - x);
    let e4 = o * o * (t4 - y);
    assert(abs(e3) == (o * o) * abs(t3 - x)) by (nonlinear_arith)
        requires e3 == o * o * (t3 - x), o > 0, abs(e3) == (if e3 < 0 { -e3 } else { e3 }),
            abs(t3 - x) == (if t3 - x < 0 { -(t3 - x) } else { t3 - x });
    assert(abs(e4) == (o * o) * abs(t4 - y)) by (nonlinear_arith)
        requires e4 == o * o * (t4 - y), o > 0, abs(e4) == (if e4 < 0 { -e4 } else { e4 }),
            abs(t4 - y) == (if t4 - y < 0 { -(t4 - y) } else { t4 - y });
}

} // verus!
