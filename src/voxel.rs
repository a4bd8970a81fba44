//! The cell type and the six-face geometry table shared by every consumer.
use vstd::prelude::*;

verus! {

/// Number of voxels along one world unit.
pub const VOXEL_PRECISION: usize = 1;

/// Fixed-point resolution of world space: units per world unit.
pub const UNITS_PER_WORLD: i64 = 1000;

/// Edge length of one voxel in fixed-point units: `UNITS_PER_WORLD / VOXEL_PRECISION`.
pub const VOXEL_SIZE: i64 = 1000;

/// A point or a vector in world space, in fixed-point units.
#[derive(Clone, Copy, Debug, PartialEq, Eq, Structural)]
pub struct WorldPos {
    pub x: i64,
    pub y: i64,
    pub z: i64,
}

impl WorldPos {
    pub fn new(x: i64, y: i64, z: i64) -> (r: WorldPos)
        ensures
            r.x == x && r.y == y && r.z == z,
    {
        WorldPos { x, y, z }
    }
}

/// One of the six axis-aligned faces of a voxel.
#[derive(Clone, Copy, Debug, PartialEq, Eq, Structural)]
pub enum VoxelFace {
    NegativeX,
    PositiveX,
    NegativeY,
    PositiveY,
    NegativeZ,
    PositiveZ,
}

/// The outward unit normal of a face.
pub open spec fn face_normal(f: VoxelFace) -> (int, int, int) {
    match f {
        VoxelFace::NegativeX => (-1, 0, 0),
        VoxelFace::PositiveX => (1, 0, 0),
        VoxelFace::NegativeY => (0, -1, 0),
        VoxelFace::PositiveY => (0, 1, 0),
        VoxelFace::NegativeZ => (0, 0, -1),
        VoxelFace::PositiveZ => (0, 0, 1),
    }
}

/// The face whose normal dominates a direction, checking -X, +X, -Y, +Y, -Z, +Z
/// in that order.
pub open spec fn face_from_normal(n: (int, int, int)) -> Option<VoxelFace> {
    if n.0 < 0 {
        Some(VoxelFace::NegativeX)
    } else if n.0 > 0 {
        Some(VoxelFace::PositiveX)
    } else if n.1 < 0 {
        Some(VoxelFace::NegativeY)
    } else if n.1 > 0 {
        Some(VoxelFace::PositiveY)
    } else if n.2 < 0 {
        Some(VoxelFace::NegativeZ)
    } else if n.2 > 0 {
        Some(VoxelFace::PositiveZ)
    } else {
        None
    }
}

/// The faces in the order in which meshing visits them.
pub open spec fn all_faces() -> Seq<VoxelFace> {
    seq![
        VoxelFace::NegativeX,
        VoxelFace::PositiveX,
        VoxelFace::NegativeY,
        VoxelFace::PositiveY,
        VoxelFace::NegativeZ,
        VoxelFace::PositiveZ,
    ]
}

/// The fixed-point point with the given coordinates.
pub open spec fn wp(x: int, y: int, z: int) -> WorldPos {
    WorldPos { x: x as i64, y: y as i64, z: z as i64 }
}

/// The quad of a face of the cell whose minimum corner is `p` and whose edge is
/// `s`, counter-clockwise as seen from outside the cell.
pub open spec fn face_quad(f: VoxelFace, p: WorldPos, s: int) -> Seq<WorldPos> {
    let (x, y, z) = (p.x as int, p.y as int, p.z as int);
    match f {
        VoxelFace::NegativeX => seq![wp(x, y, z + s), wp(x, y + s, z + s), wp(x, y + s, z), wp(x, y, z)],
        VoxelFace::PositiveX => seq![wp(x + s, y, z), wp(x + s, y + s, z), wp(x + s, y + s, z + s), wp(x + s, y, z + s)],
        VoxelFace::NegativeY => seq![wp(x, y, z), wp(x + s, y, z), wp(x + s, y, z + s), wp(x, y, z + s)],
        VoxelFace::PositiveY => seq![wp(x, y + s, z + s), wp(x + s, y + s, z + s), wp(x + s, y + s, z), wp(x, y + s, z)],
        VoxelFace::NegativeZ => seq![wp(x, y, z), wp(x, y + s, z), wp(x + s, y + s, z), wp(x + s, y, z)],
        VoxelFace::PositiveZ => seq![wp(x + s, y, z + s), wp(x + s, y + s, z + s), wp(x, y + s, z + s), wp(x, y, z + s)],
    }
}

/// A corner of a quad stays representable when the cell's far corner does.
pub open spec fn quad_fits(p: WorldPos, s: int) -> bool {
    0 <= s && p.x + s <= i64::MAX && p.y + s <= i64::MAX && p.z + s <= i64::MAX
}

impl VoxelFace {
    /// The outward unit normal of this face.
    pub fn get_normal(&self) -> (r: (i32, i32, i32))
        ensures
            (r.0 as int, r.1 as int, r.2 as int) == face_normal(*self),
    {
        match self {
            VoxelFace::NegativeX => (-1, 0, 0),
            VoxelFace::PositiveX => (1, 0, 0),
            VoxelFace::NegativeY => (0, -1, 0),
            VoxelFace::PositiveY => (0, 1, 0),
            VoxelFace::NegativeZ => (0, 0, -1),
            VoxelFace::PositiveZ => (0, 0, 1),
        }
    }

    /// The step from a cell to its neighbour across this face.
    pub fn get_offset(&self) -> (r: (i32, i32, i32))
        ensures
            (r.0 as int, r.1 as int, r.2 as int) == face_normal(*self),
    {
        match self {
            VoxelFace::NegativeX => (-1, 0, 0),
            VoxelFace::PositiveX => (1, 0, 0),
            VoxelFace::NegativeY => (0, -1, 0),
            VoxelFace::PositiveY => (0, 1, 0),
            VoxelFace::NegativeZ => (0, 0, -1),
            VoxelFace::PositiveZ => (0, 0, 1),
        }
    }

    /// The face that a direction points out of, or `None` for the zero vector.
    pub fn from_normal(normal: (i32, i32, i32)) -> (r: Option<VoxelFace>)
        ensures
            r == face_from_normal((normal.0 as int, normal.1 as int, normal.2 as int)),
    {
        if normal.0 < 0 {
            Some(VoxelFace::NegativeX)
        } else if normal.0 > 0 {
            Some(VoxelFace::PositiveX)
        } else if normal.1 < 0 {
            Some(VoxelFace::NegativeY)
        } else if normal.1 > 0 {
            Some(VoxelFace::PositiveY)
        } else if normal.2 < 0 {
            Some(VoxelFace::NegativeZ)
        } else if normal.2 > 0 {
            Some(VoxelFace::PositiveZ)
        } else {
            None
        }
    }

    /// The four corners of this face of the cell with minimum corner `pos` and
    /// edge `size`.
    pub fn get_vertices(&self, pos: WorldPos, size: i64) -> (r: [WorldPos; 4])
        requires
            quad_fits(pos, size as int),
        ensures
            r@ == face_quad(*self, pos, size as int),
    {
        let (x, y, z) = (pos.x, pos.y, pos.z);
        let r = match self {
            VoxelFace::NegativeX => [WorldPos::new(x, y, z + size), WorldPos::new(x, y + size, z + size), WorldPos::new(x, y + size, z), WorldPos::new(x, y, z)],
            VoxelFace::PositiveX => [WorldPos::new(x + size, y, z), WorldPos::new(x + size, y + size, z), WorldPos::new(x + size, y + size, z + size), WorldPos::new(x + size, y, z + size)],
            VoxelFace::NegativeY => [WorldPos::new(x, y, z), WorldPos::new(x + size, y, z), WorldPos::new(x + size, y, z + size), WorldPos::new(x, y, z + size)],
            VoxelFace::PositiveY => [WorldPos::new(x, y + size, z + size), WorldPos::new(x + size, y + size, z + size), WorldPos::new(x + size, y + size, z), WorldPos::new(x, y + size, z)],
            VoxelFace::NegativeZ => [WorldPos::new(x, y, z), WorldPos::new(x, y + size, z), WorldPos::new(x + size, y + size, z), WorldPos::new(x + size, y, z)],
            VoxelFace::PositiveZ => [WorldPos::new(x + size, y, z + size), WorldPos::new(x + size, y + size, z + size), WorldPos::new(x, y + size, z + size), WorldPos::new(x, y, z + size)],
        };
        assert(r@ =~= face_quad(*self, pos, size as int));
        r
    }
}

/// The material of a cell.
#[derive(Clone, Copy, Debug, PartialEq, Eq, Structural)]
pub enum VoxelType {
    Air,
    Stone,
    Dirt,
    Grass,
}

impl Default for VoxelType {
    fn default() -> (r: VoxelType)
        ensures
            r == VoxelType::Air,
    {
        VoxelType::Air
    }
}

pub open spec fn type_is_solid(t: VoxelType) -> bool {
    t != VoxelType::Air
}

impl VoxelType {
    pub fn is_solid(&self) -> (r: bool)
        ensures
            r == type_is_solid(*self),
    {
        match self {
            VoxelType::Air => false,
            _ => true,
        }
    }
}

/// One cell of the world grid.
#[derive(Clone, Copy, Debug, PartialEq, Eq, Structural)]
pub struct Voxel {
    pub voxel_type: VoxelType,
}

pub open spec fn air() -> Voxel {
    Voxel { voxel_type: VoxelType::Air }
}

impl Voxel {
    pub open spec fn solid(self) -> bool {
        type_is_solid(self.voxel_type)
    }

    pub fn new(voxel_type: VoxelType) -> (r: Voxel)
        ensures
            r.voxel_type == voxel_type,
    {
        Voxel { voxel_type }
    }

    pub fn is_solid(&self) -> (r: bool)
        ensures
            r == self.solid(),
    {
        self.voxel_type.is_solid()
    }
}

impl Default for Voxel {
    fn default() -> (r: Voxel)
        ensures
            r == air(),
    {
        Voxel { voxel_type: VoxelType::Air }
    }
}

pub open spec fn edge(a: WorldPos, b: WorldPos) -> (int, int, int) {
    (a.x - b.x, a.y - b.y, a.z - b.z)
}

pub open spec fn cross(u: (int, int, int), v: (int, int, int)) -> (int, int, int) {
    (u.1 * v.2 - u.2 * v.1, u.2 * v.0 - u.0 * v.2, u.0 * v.1 - u.1 * v.0)
}

/// Every quad of the face table winds counter-clockwise as seen from outside
/// the cell: both of its triangles, (0, 1, 2) and (0, 2, 3), have the outward
/// normal scaled by the face's area as their edge cross product.
pub proof fn lemma_face_winding(f: VoxelFace, p: WorldPos, s: int)
    requires
        quad_fits(p, s),
    ensures
        ({
            let q = face_quad(f, p, s);
            let n = face_normal(f);
            let area = (n.0 * (s * s), n.1 * (s * s), n.2 * (s * s));
            &&& cross(edge(q[1], q[0]), edge(q[2], q[0])) == area
            &&& cross(edge(q[2], q[0]), edge(q[3], q[0])) == area
        }),
{
    let q = face_quad(f, p, s);
    let (x, y, z) = (p.x as int, p.y as int, p.z as int);
    assert(wp(x, y, z) == p);
    let e1 = edge(q[1], q[0]);
    let e2 = edge(q[2], q[0]);
    let e3 = edge(q[3], q[0]);
    let n = face_normal(f);
    let area = (n.0 * (s * s), n.1 * (s * s), n.2 * (s * s));
    match f {
        VoxelFace::NegativeX => {
            assert(e1 == (0int, s, 0int) && e2 == (0int, s, -s) && e3 == (0int, 0int, -s));
            assert(cross(e1, e2) == area && cross(e2, e3) == area) by (nonlinear_arith)
                requires
                    e1 == (0int, s, 0int),
                    e2 == (0int, s, -s),
                    e3 == (0int, 0int, -s),
                    area == (n.0 * (s * s), n.1 * (s * s), n.2 * (s * s)),
                    n == face_normal(VoxelFace::NegativeX),
            ;
        },
        VoxelFace::PositiveX => {
            assert(e1 == (0int, s, 0int) && e2 == (0int, s, s) && e3 == (0int, 0int, s));
            assert(cross(e1, e2) == area && cross(e2, e3) == area) by (nonlinear_arith)
                requires
                    e1 == (0int, s, 0int),
                    e2 == (0int, s, s),
                    e3 == (0int, 0int, s),
                    area == (n.0 * (s * s), n.1 * (s * s), n.2 * (s * s)),
                    n == face_normal(VoxelFace::PositiveX),
            ;
        },
        VoxelFace::NegativeY => {
            assert(e1 == (s, 0int, 0int) && e2 == (s, 0int, s) && e3 == (0int, 0int, s));
            assert(cross(e1, e2) == area && cross(e2, e3) == area) by (nonlinear_arith)
                requires
                    e1 == (s, 0int, 0int),
                    e2 == (s, 0int, s),
                    e3 == (0int, 0int, s),
                    area == (n.0 * (s * s), n.1 * (s * s), n.2 * (s * s)),
                    n == face_normal(VoxelFace::NegativeY),
            ;
        },
        VoxelFace::PositiveY => {
            assert(e1 == (s, 0int, 0int) && e2 == (s, 0int, -s) && e3 == (0int, 0int, -s));
            assert(cross(e1, e2) == area && cross(e2, e3) == area) by (nonlinear_arith)
                requires
                    e1 == (s, 0int, 0int),
                    e2 == (s, 0int, -s),
                    e3 == (0int, 0int, -s),
                    area == (n.0 * (s * s), n.1 * (s * s), n.2 * (s * s)),
                    n == face_normal(VoxelFace::PositiveY),
            ;
        },
        VoxelFace::NegativeZ => {
            assert(e1 == (0int, s, 0int) && e2 == (s, s, 0int) && e3 == (s, 0int, 0int));
            assert(cross(e1, e2) == area && cross(e2, e3) == area) by (nonlinear_arith)
                requires
                    e1 == (0int, s, 0int),
                    e2 == (s, s, 0int),
                    e3 == (s, 0int, 0int),
                    area == (n.0 * (s * s), n.1 * (s * s), n.2 * (s * s)),
                    n == face_normal(VoxelFace::NegativeZ),
            ;
        },
        VoxelFace::PositiveZ => {
            assert(e1 == (0int, s, 0int) && e2 == (-s, s, 0int) && e3 == (-s, 0int, 0int));
            assert(cross(e1, e2) == area && cross(e2, e3) == area) by (nonlinear_arith)
                requires
                    e1 == (0int, s, 0int),
                    e2 == (-s, s, 0int),
                    e3 == (-s, 0int, 0int),
                    area == (n.0 * (s * s), n.1 * (s * s), n.2 * (s * s)),
                    n == face_normal(VoxelFace::PositiveZ),
            ;
        },
    }
}

} // verus!
