//! Exact voxel ray traversal (a 3-D digital differential analyzer) in integer
//! arithmetic. Distances along the ray are compared as exact fractions, so no
//! boundary crossing is skipped and the struck face is never misattributed.
use vstd::prelude::*;

use crate::voxel::{VoxelFace, WorldPos, VOXEL_SIZE, face_normal};
use crate::world::{GridPos, World, WORLD_LIMIT, GRID_LIMIT, abs, floor_div};

verus! {

/// The face reported when the ray starts inside a solid cell, where no face
/// was crossed.
pub const INSIDE_FACE: VoxelFace = VoxelFace::NegativeY;

pub open spec fn sign(v: int) -> int {
    if v > 0 { 1 } else if v < 0 { -1 } else { 0 }
}

/// The traversal state after some steps: the current cell, the distance along
/// each axis from the origin's projection to the next boundary to cross, and
/// the face through which the current cell was entered.
pub struct RayState {
    pub cell: (int, int, int),
    pub bound: (int, int, int),
    pub face: VoxelFace,
}

/// Distance along one axis from coordinate `o`, in cell `g`, to the next
/// boundary in direction `d`.
pub open spec fn first_bound(o: int, g: int, d: int) -> int {
    if d > 0 {
        (g + 1) * VOXEL_SIZE - o
    } else if d < 0 {
        o - g * VOXEL_SIZE
    } else {
        0
    }
}

pub open spec fn start_cell(o: WorldPos) -> (int, int, int) {
    (
        o.x as int / (VOXEL_SIZE as int),
        o.y as int / (VOXEL_SIZE as int),
        o.z as int / (VOXEL_SIZE as int),
    )
}

pub open spec fn ray_start(o: WorldPos, d: WorldPos) -> RayState {
    let g = start_cell(o);
    RayState {
        cell: g,
        bound: (
            first_bound(o.x as int, g.0, d.x as int),
            first_bound(o.y as int, g.1, d.y as int),
            first_bound(o.z as int, g.2, d.z as int),
        ),
        face: INSIDE_FACE,
    }
}

/// The ray meets boundary `ba` of an axis with direction `da` strictly before
/// boundary `bb` of an axis with direction `db`: `ba / |da| < bb / |db|`, where
/// an axis the ray does not move along is never reached.
pub open spec fn reaches_first(ba: int, da: int, bb: int, db: int) -> bool {
    da != 0 && (db == 0 || ba * abs(db) < bb * abs(da))
}

/// The axis crossed next: 0 for x, 1 for y, 2 for z.
pub open spec fn next_axis(s: RayState, d: WorldPos) -> int {
    if reaches_first(s.bound.0, d.x as int, s.bound.1, d.y as int) && reaches_first(
        s.bound.0,
        d.x as int,
        s.bound.2,
        d.z as int,
    ) {
        0
    } else if reaches_first(s.bound.1, d.y as int, s.bound.2, d.z as int) {
        1
    } else {
        2
    }
}

/// The face entered when stepping along an axis in the direction of `v`.
pub open spec fn entry_face(axis: int, v: int) -> VoxelFace {
    if axis == 0 {
        if v > 0 { VoxelFace::NegativeX } else { VoxelFace::PositiveX }
    } else if axis == 1 {
        if v > 0 { VoxelFace::NegativeY } else { VoxelFace::PositiveY }
    } else {
        if v > 0 { VoxelFace::NegativeZ } else { VoxelFace::PositiveZ }
    }
}

/// One traversal step: cross the nearest boundary into the adjacent cell.
pub open spec fn ray_next(s: RayState, d: WorldPos) -> RayState {
    let a = next_axis(s, d);
    if a == 0 {
        RayState {
            cell: (s.cell.0 + sign(d.x as int), s.cell.1, s.cell.2),
            bound: (s.bound.0 + VOXEL_SIZE, s.bound.1, s.bound.2),
            face: entry_face(0, d.x as int),
        }
    } else if a == 1 {
        RayState {
            cell: (s.cell.0, s.cell.1 + sign(d.y as int), s.cell.2),
            bound: (s.bound.0, s.bound.1 + VOXEL_SIZE, s.bound.2),
            face: entry_face(1, d.y as int),
        }
    } else {
        RayState {
            cell: (s.cell.0, s.cell.1, s.cell.2 + sign(d.z as int)),
            bound: (s.bound.0, s.bound.1, s.bound.2 + VOXEL_SIZE),
            face: entry_face(2, d.z as int),
        }
    }
}

/// The traversal state after `k` steps.
pub open spec fn ray_state(o: WorldPos, d: WorldPos, k: nat) -> RayState
    decreases k,
{
    if k == 0 {
        ray_start(o, d)
    } else {
        ray_next(ray_state(o, d, (k - 1) as nat), d)
    }
}

pub open spec fn grid_of(c: (int, int, int)) -> GridPos {
    GridPos { x: c.0 as i64, y: c.1 as i64, z: c.2 as i64 }
}

/// The cell is addressable, loaded and solid.
pub open spec fn solid_cell(w: &World, c: (int, int, int)) -> bool {
    &&& abs(c.0) <= GRID_LIMIT && abs(c.2) <= GRID_LIMIT
    &&& i64::MIN <= c.1 <= i64::MAX
    &&& w.voxel_at_grid(grid_of(c)) matches Some(v) && v.solid()
}

/// The first solid cell among steps `k..=n`, with the face it was entered by.
pub open spec fn first_hit(w: &World, o: WorldPos, d: WorldPos, k: nat, n: nat) -> Option<(GridPos, VoxelFace)>
    decreases n + 1 - k,
{
    if k > n {
        None
    } else if solid_cell(w, ray_state(o, d, k).cell) {
        Some((grid_of(ray_state(o, d, k).cell), ray_state(o, d, k).face))
    } else {
        first_hit(w, o, d, k + 1, n)
    }
}

/// Number of steps a cast of length `max_distance` may take.
pub open spec fn step_budget(max_distance: int) -> nat {
    (max_distance / (VOXEL_SIZE as int) + 1) as nat
}

/// What a cast returns: the origin's cell with `inside_face` when that cell is
/// solid, else the first solid cell the traversal enters within the step
/// budget, with the face it entered by; nothing for a zero direction.
pub open spec fn cast_result_with(
    w: &World,
    o: WorldPos,
    d: WorldPos,
    max_distance: int,
    inside_face: VoxelFace,
) -> Option<(GridPos, VoxelFace)> {
    if solid_cell(w, start_cell(o)) {
        Some((grid_of(start_cell(o)), inside_face))
    } else if d.x == 0 && d.y == 0 && d.z == 0 {
        None
    } else {
        first_hit(w, o, d, 1, step_budget(max_distance))
    }
}

/// A cast that reports `INSIDE_FACE` for an origin inside a solid cell.
pub open spec fn cast_result(w: &World, o: WorldPos, d: WorldPos, max_distance: int) -> Option<(GridPos, VoxelFace)> {
    cast_result_with(w, o, d, max_distance, INSIDE_FACE)
}

/// Each traversal step moves to a face-adjacent cell, entering it through the
/// face that looks back along the ray: the step is minus the entered face's
/// normal, and that normal points against the direction of travel.
pub proof fn lemma_step_face_adjacent(o: WorldPos, d: WorldPos, k: nat)
    requires
        !(d.x == 0 && d.y == 0 && d.z == 0),
    ensures
        ({
            let s = ray_state(o, d, k);
            let t = ray_state(o, d, k + 1);
            let n = face_normal(t.face);
            &&& t.cell == (s.cell.0 - n.0, s.cell.1 - n.1, s.cell.2 - n.2)
            &&& n.0 * d.x + n.1 * d.y + n.2 * d.z < 0
        }),
{
    let s = ray_state(o, d, k);
    assert(ray_state(o, d, k + 1) == ray_next(s, d));
}

/// Largest boundary distance that a bounded cast accumulates (2^42 units).
pub const BOUND_MAX: i128 = 4398046511104;

/// Largest magnitude of a direction component (2^63).
pub const DIR_MAX: i128 = 9223372036854775808;

/// Exact comparison of `ba / |da|` with `bb / |db|`, as `reaches_first` states it.
fn reaches_first_exec(ba: i128, da: i128, bb: i128, db: i128) -> (r: bool)
    requires
        0 <= ba <= BOUND_MAX,
        0 <= bb <= BOUND_MAX,
        -DIR_MAX <= da <= DIR_MAX,
        -DIR_MAX <= db <= DIR_MAX,
    ensures
        r == reaches_first(ba as int, da as int, bb as int, db as int),
{
    if da == 0 {
        return false;
    }
    if db == 0 {
        return true;
    }
    let ada: i128 = if da < 0 { -da } else { da };
    let adb: i128 = if db < 0 { -db } else { db };
    proof {
        assert(0 <= ba * adb <= BOUND_MAX * DIR_MAX) by (nonlinear_arith)
            requires
                0 <= ba <= BOUND_MAX,
                0 <= adb <= DIR_MAX,
        ;
        assert(0 <= bb * ada <= BOUND_MAX * DIR_MAX) by (nonlinear_arith)
            requires
                0 <= bb <= BOUND_MAX,
                0 <= ada <= DIR_MAX,
        ;
    }
    ba * adb < bb * ada
}

proof fn lemma_first_bound(o: int, d: int)
    ensures
        0 <= first_bound(o, o / (VOXEL_SIZE as int), d) <= VOXEL_SIZE,
{
    vstd::arithmetic::div_mod::lemma_fundamental_div_mod(o, VOXEL_SIZE as int);
    assert(0 <= o % (VOXEL_SIZE as int) < VOXEL_SIZE);
    let g = o / (VOXEL_SIZE as int);
    assert(o - g * VOXEL_SIZE == o % (VOXEL_SIZE as int)) by (nonlinear_arith)
        requires
            o == 1000 * g + o % 1000,
    ;
}

impl World {
    /// Whether the cell at grid indices is addressable, loaded and solid.
    pub fn is_solid_at_grid(&self, x: i64, y: i64, z: i64) -> (r: bool)
        requires
            self.wf(),
        ensures
            r == solid_cell(self, (x as int, y as int, z as int)),
    {
        if x < -GRID_LIMIT || x > GRID_LIMIT || z < -GRID_LIMIT || z > GRID_LIMIT {
            return false;
        }
        match self.get_voxel_at_grid(GridPos::new(x, y, z)) {
            Some(v) => v.is_solid(),
            None => false,
        }
    }

    /// Casts a ray from `origin` along `direction` (fixed-point), visiting
    /// cells in the order the ray crosses their boundaries, for at most
    /// `max_distance / VOXEL_SIZE + 1` steps. Returns the first solid cell and
    /// the face the ray entered it by; the origin's own cell with `INSIDE_FACE`
    /// when that cell is solid; `None` when no solid cell is reached.
    pub fn cast_ray(&self, origin: WorldPos, direction: WorldPos, max_distance: i64) -> (r: Option<(GridPos, VoxelFace)>)
        requires
            self.wf(),
            origin.in_world(),
            0 <= max_distance <= WORLD_LIMIT,
        ensures
            r == cast_result(self, origin, direction, max_distance as int),
    {
        self.cast_ray_with_inside_face(origin, direction, max_distance, INSIDE_FACE)
    }

    /// As `cast_ray`, but reports `inside_face`, chosen by the caller, when the
    /// origin's own cell is solid and no face was crossed.
    pub fn cast_ray_with_inside_face(
        &self,
        origin: WorldPos,
        direction: WorldPos,
        max_distance: i64,
        inside_face: VoxelFace,
    ) -> (r: Option<(GridPos, VoxelFace)>)
        requires
            self.wf(),
            origin.in_world(),
            0 <= max_distance <= WORLD_LIMIT,
        ensures
            r == cast_result_with(self, origin, direction, max_distance as int, inside_face),
    {
        let mut gx = floor_div(origin.x, VOXEL_SIZE);
        let mut gy = floor_div(origin.y, VOXEL_SIZE);
        let mut gz = floor_div(origin.z, VOXEL_SIZE);
        if self.is_solid_at_grid(gx, gy, gz) {
            return Some((GridPos::new(gx, gy, gz), inside_face));
        }
        if direction.x == 0 && direction.y == 0 && direction.z == 0 {
            return None;
        }
        let dx = direction.x as i128;
        let dy = direction.y as i128;
        let dz = direction.z as i128;
        let sx: i64 = if dx > 0 { 1 } else if dx < 0 { -1 } else { 0 };
        let sy: i64 = if dy > 0 { 1 } else if dy < 0 { -1 } else { 0 };
        let sz: i64 = if dz > 0 { 1 } else if dz < 0 { -1 } else { 0 };
        let vs = VOXEL_SIZE as i128;
        let mut bx: i128 = if dx > 0 {
            (gx as i128 + 1) * vs - origin.x as i128
        } else if dx < 0 {
            origin.x as i128 - gx as i128 * vs
        } else {
            0
        };
        let mut by: i128 = if dy > 0 {
            (gy as i128 + 1) * vs - origin.y as i128
        } else if dy < 0 {
            origin.y as i128 - gy as i128 * vs
        } else {
            0
        };
        let mut bz: i128 = if dz > 0 {
            (gz as i128 + 1) * vs - origin.z as i128
        } else if dz < 0 {
            origin.z as i128 - gz as i128 * vs
        } else {
            0
        };
        let steps: i64 = floor_div(max_distance, VOXEL_SIZE) + 1;
        let ghost n = step_budget(max_distance as int);
        let ghost g0 = start_cell(origin);
        let mut face = INSIDE_FACE;
        let mut k: i64 = 0;
        proof {
            lemma_first_bound(origin.x as int, direction.x as int);
            lemma_first_bound(origin.y as int, direction.y as int);
            lemma_first_bound(origin.z as int, direction.z as int);
            assert(ray_state(origin, direction, 0) == ray_start(origin, direction));
            assert(steps <= 1099511628 + 1) by (nonlinear_arith)
                requires
                    steps == max_distance as int / 1000 + 1,
                    0 <= max_distance <= 1099511627776,
            ;
        }
        while k < steps
            invariant
                self.wf(),
                !(direction.x == 0 && direction.y == 0 && direction.z == 0),
                dx == direction.x && dy == direction.y && dz == direction.z,
                sx == sign(dx as int) && sy == sign(dy as int) && sz == sign(dz as int),
                vs == VOXEL_SIZE,
                steps == n,
                n == step_budget(max_distance as int),
                1 <= steps <= 1099511629,
                0 <= k <= steps,
                g0 == start_cell(origin),
                !solid_cell(self, start_cell(origin)),
                abs(g0.0) <= 1099511628 && abs(g0.1) <= 1099511628 && abs(g0.2) <= 1099511628,
                abs(gx - g0.0) <= k && abs(gy - g0.1) <= k && abs(gz - g0.2) <= k,
                0 <= bx <= VOXEL_SIZE * (k + 1),
                0 <= by <= VOXEL_SIZE * (k + 1),
                0 <= bz <= VOXEL_SIZE * (k + 1),
                ray_state(origin, direction, k as nat) == (RayState {
                    cell: (gx as int, gy as int, gz as int),
                    bound: (bx as int, by as int, bz as int),
                    face,
                }),
                first_hit(self, origin, direction, 1, n) == first_hit(self, origin, direction, (k + 1) as nat, n),
            decreases steps - k,
        {
            let ghost s = ray_state(origin, direction, k as nat);
            proof {
                assert(ray_state(origin, direction, (k + 1) as nat) == ray_next(s, direction));
            }
            if reaches_first_exec(bx, dx, by, dy) && reaches_first_exec(bx, dx, bz, dz) {
                gx = gx + sx;
                bx = bx + vs;
                face = if sx > 0 { VoxelFace::NegativeX } else { VoxelFace::PositiveX };
            } else if reaches_first_exec(by, dy, bz, dz) {
                gy = gy + sy;
                by = by + vs;
                face = if sy > 0 { VoxelFace::NegativeY } else { VoxelFace::PositiveY };
            } else {
                gz = gz + sz;
                bz = bz + vs;
                face = if sz > 0 { VoxelFace::NegativeZ } else { VoxelFace::PositiveZ };
            }
            k = k + 1;
            if self.is_solid_at_grid(gx, gy, gz) {
                proof {
                    let t = ray_state(origin, direction, k as nat);
                    assert(grid_of(t.cell) == GridPos { x: gx, y: gy, z: gz });
                    assert(first_hit(self, origin, direction, k as nat, n) == Some((grid_of(t.cell), t.face)));
                }
                return Some((GridPos::new(gx, gy, gz), face));
            }
        }
        None
    }
}

/// Component `a` (0 for x, 1 for y, 2 for z) of a triple.
pub open spec fn axis(v: (int, int, int), a: int) -> int {
    if a == 0 {
        v.0
    } else if a == 1 {
        v.1
    } else {
        v.2
    }
}

pub open spec fn comp(p: WorldPos, a: int) -> int {
    axis((p.x as int, p.y as int, p.z as int), a)
}

/// Along one axis, the bound is the distance from the origin to the far side
/// of the current cell in the direction of travel; an axis the ray does not
/// move along keeps the origin's cell.
pub open spec fn axis_ok(o: int, g: int, b: int, d: int, g0: int) -> bool {
    &&& 0 <= b
    &&& d != 0 ==> b == first_bound(o, g, d)
    &&& d == 0 ==> g == g0 && b == 0
}

/// The ray enters the current cell along axis `c` no later than it leaves it
/// along axis `a`: `(bc - VOXEL_SIZE) / |dc| <= ba / |da|`.
pub open spec fn entered_before(ba: int, da: int, bc: int, dc: int) -> bool {
    da != 0 && dc != 0 ==> (bc - VOXEL_SIZE) * abs(da) <= ba * abs(dc)
}

/// What holds of every traversal state.
pub open spec fn ray_inv(o: WorldPos, d: WorldPos, s: RayState) -> bool {
    let g0 = start_cell(o);
    &&& axis_ok(o.x as int, s.cell.0, s.bound.0, d.x as int, g0.0)
    &&& axis_ok(o.y as int, s.cell.1, s.bound.1, d.y as int, g0.1)
    &&& axis_ok(o.z as int, s.cell.2, s.bound.2, d.z as int, g0.2)
    &&& entered_before(s.bound.0, d.x as int, s.bound.1, d.y as int)
    &&& entered_before(s.bound.0, d.x as int, s.bound.2, d.z as int)
    &&& entered_before(s.bound.1, d.y as int, s.bound.0, d.x as int)
    &&& entered_before(s.bound.1, d.y as int, s.bound.2, d.z as int)
    &&& entered_before(s.bound.2, d.z as int, s.bound.0, d.x as int)
    &&& entered_before(s.bound.2, d.z as int, s.bound.1, d.y as int)
}

/// The ray meets boundary `ba` no later than boundary `bc`: `ba / |da| <= bc / |dc|`.
pub open spec fn no_later(ba: int, da: int, bc: int, dc: int) -> bool {
    dc != 0 ==> ba * abs(dc) <= bc * abs(da)
}

proof fn lemma_no_later_trans(b1: int, a1: int, b2: int, a2: int, b3: int, a3: int)
    requires
        a1 > 0,
        a2 > 0,
        a3 > 0,
        b1 * a2 <= b2 * a1,
        b2 * a3 <= b3 * a2,
    ensures
        b1 * a3 <= b3 * a1,
{
    assert(b1 * a2 * a3 <= b2 * a1 * a3) by (nonlinear_arith)
        requires
            b1 * a2 <= b2 * a1,
            a3 > 0,
    ;
    assert(b2 * a3 * a1 <= b3 * a2 * a1) by (nonlinear_arith)
        requires
            b2 * a3 <= b3 * a2,
            a1 > 0,
    ;
    assert(b1 * a3 * a2 <= b3 * a1 * a2) by (nonlinear_arith)
        requires
            b1 * a2 * a3 <= b2 * a1 * a3,
            b2 * a3 * a1 <= b3 * a2 * a1,
    ;
    assert(b1 * a3 <= b3 * a1) by (nonlinear_arith)
        requires
            b1 * a3 * a2 <= b3 * a1 * a2,
            a2 > 0,
    ;
}

proof fn lemma_next_axis_first(s: RayState, d: WorldPos)
    requires
        !(d.x == 0 && d.y == 0 && d.z == 0),
        0 <= s.bound.0 && 0 <= s.bound.1 && 0 <= s.bound.2,
    ensures
        comp(d, next_axis(s, d)) != 0,
        no_later(axis(s.bound, next_axis(s, d)), comp(d, next_axis(s, d)), s.bound.0, d.x as int),
        no_later(axis(s.bound, next_axis(s, d)), comp(d, next_axis(s, d)), s.bound.1, d.y as int),
        no_later(axis(s.bound, next_axis(s, d)), comp(d, next_axis(s, d)), s.bound.2, d.z as int),
{
    let (bx, by, bz) = s.bound;
    let (dx, dy, dz) = (d.x as int, d.y as int, d.z as int);
    let m = next_axis(s, d);
    if m == 1 && dx != 0 {
        if reaches_first(bx, dx, by, dy) {
            lemma_no_later_trans(by, abs(dy), bz, abs(dz), bx, abs(dx));
        }
    }
    if m == 2 && dx != 0 {
        if reaches_first(bx, dx, bz, dz) {
            lemma_no_later_trans(bz, abs(dz), by, abs(dy), bx, abs(dx));
        }
    }
}

proof fn lemma_step_pair(bm: int, dm: int, bc: int, dc: int)
    requires
        dm != 0,
        dc != 0,
        0 <= bm,
        bm * abs(dc) <= bc * abs(dm),
        (bc - VOXEL_SIZE) * abs(dm) <= bm * abs(dc),
    ensures
        (bc - VOXEL_SIZE) * abs(dm) <= (bm + VOXEL_SIZE) * abs(dc),
        (bm + VOXEL_SIZE - VOXEL_SIZE) * abs(dc) <= bc * abs(dm),
{
    assert((bm + VOXEL_SIZE) * abs(dc) == bm * abs(dc) + VOXEL_SIZE * abs(dc)) by (nonlinear_arith);
    assert(VOXEL_SIZE * abs(dc) >= 0) by (nonlinear_arith);
}

proof fn lemma_start_inv(o: WorldPos, d: WorldPos)
    ensures
        ray_inv(o, d, ray_start(o, d)),
{
    lemma_first_bound(o.x as int, d.x as int);
    lemma_first_bound(o.y as int, d.y as int);
    lemma_first_bound(o.z as int, d.z as int);
    let s = ray_start(o, d);
    assert forall|ba: int, da: int, bc: int, dc: int|
        0 <= ba && bc <= VOXEL_SIZE implies #[trigger] entered_before(ba, da, bc, dc) by {
        if da != 0 && dc != 0 {
            assert((bc - VOXEL_SIZE) * abs(da) <= 0) by (nonlinear_arith)
                requires
                    bc - VOXEL_SIZE <= 0,
            ;
            assert(ba * abs(dc) >= 0) by (nonlinear_arith)
                requires
                    ba >= 0,
            ;
        }
    }
    assert(entered_before(s.bound.0, d.x as int, s.bound.1, d.y as int));
    assert(entered_before(s.bound.0, d.x as int, s.bound.2, d.z as int));
    assert(entered_before(s.bound.1, d.y as int, s.bound.0, d.x as int));
    assert(entered_before(s.bound.1, d.y as int, s.bound.2, d.z as int));
    assert(entered_before(s.bound.2, d.z as int, s.bound.0, d.x as int));
    assert(entered_before(s.bound.2, d.z as int, s.bound.1, d.y as int));
}

proof fn lemma_step_inv(o: WorldPos, d: WorldPos, s: RayState)
    requires
        !(d.x == 0 && d.y == 0 && d.z == 0),
        ray_inv(o, d, s),
    ensures
        ray_inv(o, d, ray_next(s, d)),
{
    lemma_next_axis_first(s, d);
    let m = next_axis(s, d);
    let (bx, by, bz) = s.bound;
    let (dx, dy, dz) = (d.x as int, d.y as int, d.z as int);
    if m == 0 {
        if dy != 0 {
            lemma_step_pair(bx, dx, by, dy);
        }
        if dz != 0 {
            lemma_step_pair(bx, dx, bz, dz);
        }
    } else if m == 1 {
        if dx != 0 {
            lemma_step_pair(by, dy, bx, dx);
        }
        if dz != 0 {
            lemma_step_pair(by, dy, bz, dz);
        }
    } else {
        if dx != 0 {
            lemma_step_pair(bz, dz, bx, dx);
        }
        if dy != 0 {
            lemma_step_pair(bz, dz, by, dy);
        }
    }
}

pub proof fn lemma_ray_inv(o: WorldPos, d: WorldPos, k: nat)
    requires
        !(d.x == 0 && d.y == 0 && d.z == 0),
    ensures
        ray_inv(o, d, ray_state(o, d, k)),
    decreases k,
{
    if k == 0 {
        lemma_start_inv(o, d);
    } else {
        lemma_ray_inv(o, d, (k - 1) as nat);
        lemma_step_inv(o, d, ray_state(o, d, (k - 1) as nat));
    }
}

/// Along one axis, the point where the ray leaves the cell lies within the
/// cell's closed extent, scaled by `|da|`.
proof fn lemma_axis_exit(o: int, g: int, b: int, dc: int, g0: int, ba: int, da: int)
    requires
        axis_ok(o, g, b, dc, g0),
        g0 == o / (VOXEL_SIZE as int),
        da != 0,
        entered_before(ba, da, b, dc),
        no_later(ba, da, b, dc),
    ensures
        g * VOXEL_SIZE * abs(da) <= o * abs(da) + ba * dc <= (g + 1) * VOXEL_SIZE * abs(da),
{
    let ad = abs(da);
    if dc == 0 {
        vstd::arithmetic::div_mod::lemma_fundamental_div_mod(o, VOXEL_SIZE as int);
        assert(g * VOXEL_SIZE <= o < (g + 1) * VOXEL_SIZE);
        assert(g * VOXEL_SIZE * ad <= o * ad <= (g + 1) * VOXEL_SIZE * ad) by (nonlinear_arith)
            requires
                g * VOXEL_SIZE <= o <= (g + 1) * VOXEL_SIZE,
                ad >= 0,
        ;
    } else if dc > 0 {
        assert(g * VOXEL_SIZE * ad <= o * ad + ba * dc <= (g + 1) * VOXEL_SIZE * ad) by (nonlinear_arith)
            requires
                b == (g + 1) * VOXEL_SIZE - o,
                (b - VOXEL_SIZE) * ad <= ba * dc,
                ba * dc <= b * ad,
                dc > 0,
        ;
    } else {
        assert(g * VOXEL_SIZE * ad <= o * ad + ba * dc <= (g + 1) * VOXEL_SIZE * ad) by (nonlinear_arith)
            requires
                b == o - g * VOXEL_SIZE,
                (b - VOXEL_SIZE) * ad <= ba * (-dc),
                ba * (-dc) <= b * ad,
                dc < 0,
        ;
    }
}

/// The traversal follows the ray exactly: in every state, the point where the
/// ray leaves the current cell, at parameter `t = b / |d_a|` for the axis `a`
/// crossed next, lies in that cell's closed extent on every axis (written
/// multiplied through by `|d_a|`). The next cell is entered at that same point,
/// so consecutive cells share the crossing and no cell on the ray is skipped.
pub proof fn lemma_exit_point_in_cell(o: WorldPos, d: WorldPos, k: nat)
    requires
        !(d.x == 0 && d.y == 0 && d.z == 0),
    ensures
        ({
            let s = ray_state(o, d, k);
            let a = next_axis(s, d);
            let ad = abs(comp(d, a));
            let b = axis(s.bound, a);
            &&& ad > 0
            &&& forall|c: int|
                0 <= c < 3 ==> axis(s.cell, c) * VOXEL_SIZE * ad <= #[trigger] comp(o, c) * ad + b * comp(d, c)
                    <= (axis(s.cell, c) + 1) * VOXEL_SIZE * ad
        }),
{
    let s = ray_state(o, d, k);
    lemma_ray_inv(o, d, k);
    lemma_next_axis_first(s, d);
    let a = next_axis(s, d);
    let da = comp(d, a);
    let b = axis(s.bound, a);
    let g0 = start_cell(o);
    assert(entered_before(b, da, s.bound.2, d.z as int)) by {
        if a == 2 && da != 0 {
            assert((s.bound.2 - VOXEL_SIZE) * abs(da) <= s.bound.2 * abs(da)) by (nonlinear_arith);
        }
    }
    assert(entered_before(b, da, s.bound.0, d.x as int)) by {
        if a == 0 && da != 0 {
            assert((s.bound.0 - VOXEL_SIZE) * abs(da) <= s.bound.0 * abs(da)) by (nonlinear_arith);
        }
    }
    assert(entered_before(b, da, s.bound.1, d.y as int)) by {
        if a == 1 && da != 0 {
            assert((s.bound.1 - VOXEL_SIZE) * abs(da) <= s.bound.1 * abs(da)) by (nonlinear_arith);
        }
    }
    lemma_axis_exit(o.x as int, s.cell.0, s.bound.0, d.x as int, g0.0, b, da);
    lemma_axis_exit(o.y as int, s.cell.1, s.bound.1, d.y as int, g0.1, b, da);
    lemma_axis_exit(o.z as int, s.cell.2, s.bound.2, d.z as int, g0.2, b, da);
}

} // verus!
