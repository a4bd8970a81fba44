//! Face-culled geometry of a chunk. One culling pass lists the visible faces;
//! the render mesh and the collision surface are both built from that list and
//! the shared face table, so the two are congruent.
use vstd::prelude::*;

use crate::voxel::{VoxelFace, WorldPos, VOXEL_SIZE, all_faces, face_normal, face_quad, wp};
use crate::world::{
    ChunkCoord, World, same_except, Chunk, CHUNK_VOLUME, CHUNK_VOXELS_HEIGHT, CHUNK_VOXELS_SIZE, cell_of, in_bounds, lemma_cell_of,
};

verus! {

/// One visible face: the cell's local indices and the side it faces.
#[derive(Clone, Copy, Debug, PartialEq, Eq, Structural)]
pub struct FaceRef {
    pub x: usize,
    pub y: usize,
    pub z: usize,
    pub face: VoxelFace,
}

/// The neighbour of cell (x, y, z) across face `f` is outside the chunk or not solid.
pub open spec fn face_open(chunk: &Chunk, x: int, y: int, z: int, f: VoxelFace) -> bool {
    let n = face_normal(f);
    !in_bounds(x + n.0, y + n.1, z + n.2) || !chunk.voxel_at(x + n.0, y + n.1, z + n.2).solid()
}

pub open spec fn face_ref(x: int, y: int, z: int, f: VoxelFace) -> FaceRef {
    FaceRef { x: x as usize, y: y as usize, z: z as usize, face: f }
}

/// The open faces of cell (x, y, z) among the first `k` faces of `all_faces()`.
pub open spec fn open_faces_upto(chunk: &Chunk, x: int, y: int, z: int, k: int) -> Seq<FaceRef>
    decreases k,
{
    if k <= 0 {
        Seq::empty()
    } else {
        let prev = open_faces_upto(chunk, x, y, z, k - 1);
        let f = all_faces()[k - 1];
        if face_open(chunk, x, y, z, f) {
            prev.push(face_ref(x, y, z, f))
        } else {
            prev
        }
    }
}

/// The faces that a cell contributes: its open faces if it is solid, none otherwise.
pub open spec fn cell_faces(chunk: &Chunk, x: int, y: int, z: int) -> Seq<FaceRef> {
    if chunk.voxel_at(x, y, z).solid() {
        open_faces_upto(chunk, x, y, z, 6)
    } else {
        Seq::empty()
    }
}

/// The faces of the first `n` cells, in array order.
pub open spec fn chunk_faces_upto(chunk: &Chunk, n: int) -> Seq<FaceRef>
    decreases n,
{
    if n <= 0 {
        Seq::empty()
    } else {
        let (x, y, z) = cell_of(n - 1);
        chunk_faces_upto(chunk, n - 1) + cell_faces(chunk, x, y, z)
    }
}

/// Every visible face of a chunk, cells in array order and faces in table order.
pub open spec fn chunk_faces(chunk: &Chunk) -> Seq<FaceRef> {
    chunk_faces_upto(chunk, CHUNK_VOLUME as int)
}

/// The chunk-local minimum corner of a face's cell.
pub open spec fn face_corner(f: FaceRef) -> WorldPos {
    wp(f.x * VOXEL_SIZE, f.y * VOXEL_SIZE, f.z * VOXEL_SIZE)
}

/// Four vertices per face, from the shared face table.
pub open spec fn face_positions(fs: Seq<FaceRef>) -> Seq<WorldPos>
    decreases fs.len(),
{
    if fs.len() == 0 {
        Seq::empty()
    } else {
        let f = fs.last();
        face_positions(fs.drop_last()) + face_quad(f.face, face_corner(f), VOXEL_SIZE as int)
    }
}

pub open spec fn normal_of(f: VoxelFace) -> (i32, i32, i32) {
    (face_normal(f).0 as i32, face_normal(f).1 as i32, face_normal(f).2 as i32)
}

/// The face's normal at each of its four vertices.
pub open spec fn face_normals(fs: Seq<FaceRef>) -> Seq<(i32, i32, i32)>
    decreases fs.len(),
{
    if fs.len() == 0 {
        Seq::empty()
    } else {
        let n = normal_of(fs.last().face);
        face_normals(fs.drop_last()) + seq![n, n, n, n]
    }
}

/// Texture coordinates of a quad's corners, in vertex order.
pub open spec fn quad_uvs() -> Seq<(u32, u32)> {
    seq![(0u32, 0u32), (1u32, 0u32), (1u32, 1u32), (0u32, 1u32)]
}

pub open spec fn face_uvs(fs: Seq<FaceRef>) -> Seq<(u32, u32)>
    decreases fs.len(),
{
    if fs.len() == 0 {
        Seq::empty()
    } else {
        face_uvs(fs.drop_last()) + quad_uvs()
    }
}

/// Two triangles per face, (0, 1, 2) and (0, 2, 3) of its quad.
pub open spec fn face_triangles(fs: Seq<FaceRef>) -> Seq<(u32, u32, u32)>
    decreases fs.len(),
{
    if fs.len() == 0 {
        Seq::empty()
    } else {
        let b = 4 * (fs.len() - 1);
        face_triangles(fs.drop_last()) + seq![
            (b as u32, (b + 1) as u32, (b + 2) as u32),
            (b as u32, (b + 2) as u32, (b + 3) as u32),
        ]
    }
}

/// The triangles as a flat index list.
pub open spec fn face_indices(fs: Seq<FaceRef>) -> Seq<u32>
    decreases fs.len(),
{
    if fs.len() == 0 {
        Seq::empty()
    } else {
        let b = 4 * (fs.len() - 1);
        face_indices(fs.drop_last()) + seq![
            b as u32,
            (b + 1) as u32,
            (b + 2) as u32,
            b as u32,
            (b + 2) as u32,
            (b + 3) as u32,
        ]
    }
}

/// A render mesh: a triangle list with per-vertex normals and texture
/// coordinates, in chunk-local fixed-point coordinates.
pub struct Geometry {
    pub positions: Vec<WorldPos>,
    pub normals: Vec<(i32, i32, i32)>,
    pub uvs: Vec<(u32, u32)>,
    pub indices: Vec<u32>,
}

/// A collision surface: vertices and triangles, in chunk-local fixed-point coordinates.
pub struct TriMesh {
    pub vertices: Vec<WorldPos>,
    pub triangles: Vec<(u32, u32, u32)>,
}

pub proof fn lemma_open_faces_len(chunk: &Chunk, x: int, y: int, z: int, k: int)
    requires
        0 <= k <= 6,
    ensures
        open_faces_upto(chunk, x, y, z, k).len() <= k,
    decreases k,
{
    if k > 0 {
        lemma_open_faces_len(chunk, x, y, z, k - 1);
    }
}

pub proof fn lemma_chunk_faces_len(chunk: &Chunk, n: int)
    requires
        0 <= n,
    ensures
        chunk_faces_upto(chunk, n).len() <= 6 * n,
    decreases n,
{
    if n > 0 {
        lemma_chunk_faces_len(chunk, n - 1);
        let (x, y, z) = cell_of(n - 1);
        lemma_open_faces_len(chunk, x, y, z, 6);
    }
}

/// Whether the neighbour of local cell (x, y, z) across `face` leaves the face visible.
pub fn should_render_face(chunk: &Chunk, x: usize, y: usize, z: usize, face: VoxelFace) -> (r: bool)
    requires
        chunk.wf(),
        in_bounds(x as int, y as int, z as int),
    ensures
        r == face_open(chunk, x as int, y as int, z as int, face),
{
    let (dx, dy, dz) = face.get_offset();
    let nx: i64 = x as i64 + dx as i64;
    let ny: i64 = y as i64 + dy as i64;
    let nz: i64 = z as i64 + dz as i64;
    if nx < 0 || nx >= CHUNK_VOXELS_SIZE as i64 || ny < 0 || ny >= CHUNK_VOXELS_HEIGHT as i64 || nz < 0
        || nz >= CHUNK_VOXELS_SIZE as i64 {
        return true;
    }
    match chunk.get_voxel(nx as usize, ny as usize, nz as usize) {
        Some(v) => !v.is_solid(),
        None => true,
    }
}

/// Every visible face of the chunk: for each solid cell, in array order, each
/// face in table order whose neighbour is outside the chunk or not solid.
pub fn visible_faces(chunk: &Chunk) -> (r: Vec<FaceRef>)
    requires
        chunk.wf(),
    ensures
        r@ == chunk_faces(chunk),
{
    let mut r: Vec<FaceRef> = Vec::new();
    let mut i: usize = 0;
    while i < CHUNK_VOLUME
        invariant
            chunk.wf(),
            i <= CHUNK_VOLUME,
            r@ == chunk_faces_upto(chunk, i as int),
        decreases CHUNK_VOLUME - i,
    {
        let col = i / CHUNK_VOXELS_SIZE;
        let x = col / CHUNK_VOXELS_HEIGHT;
        let y = col % CHUNK_VOXELS_HEIGHT;
        let z = i % CHUNK_VOXELS_SIZE;
        proof {
            lemma_cell_of(i as int);
            assert(cell_of(i as int) == (x as int, y as int, z as int));
        }
        let solid = match chunk.get_voxel(x, y, z) {
            Some(v) => v.is_solid(),
            None => false,
        };
        if solid {
            let faces: [VoxelFace; 6] = [
                VoxelFace::NegativeX,
                VoxelFace::PositiveX,
                VoxelFace::NegativeY,
                VoxelFace::PositiveY,
                VoxelFace::NegativeZ,
                VoxelFace::PositiveZ,
            ];
            assert(faces@ =~= all_faces());
            let ghost base = r@;
            let mut k: usize = 0;
            while k < 6
                invariant
                    chunk.wf(),
                    in_bounds(x as int, y as int, z as int),
                    faces@ == all_faces(),
                    k <= 6,
                    r@ == base + open_faces_upto(chunk, x as int, y as int, z as int, k as int),
                decreases 6 - k,
            {
                let f = faces[k];
                if should_render_face(chunk, x, y, z, f) {
                    r.push(FaceRef { x, y, z, face: f });
                }
                proof {
                    assert(r@ =~= base + open_faces_upto(chunk, x as int, y as int, z as int, k + 1));
                }
                k = k + 1;
            }
        }
        proof {
            assert(r@ =~= chunk_faces_upto(chunk, i + 1));
        }
        i = i + 1;
    }
    r
}

/// Every listed face belongs to a cell inside the chunk.
pub open spec fn faces_in_chunk(fs: Seq<FaceRef>) -> bool {
    forall|k: int| 0 <= k < fs.len() ==> in_bounds(#[trigger] fs[k].x as int, fs[k].y as int, fs[k].z as int)
}

proof fn lemma_open_faces_props(chunk: &Chunk, x: int, y: int, z: int, k: int)
    requires
        in_bounds(x, y, z),
        0 <= k <= 6,
    ensures
        forall|j: int|
            0 <= j < open_faces_upto(chunk, x, y, z, k).len() ==> {
                let f = #[trigger] open_faces_upto(chunk, x, y, z, k)[j];
                f.x == x && f.y == y && f.z == z && face_open(chunk, x, y, z, f.face)
            },
    decreases k,
{
    if k > 0 {
        lemma_open_faces_props(chunk, x, y, z, k - 1);
    }
}

/// The mesh builder never emits a face between two solid cells: every face it
/// lists belongs to a solid cell of the chunk, and the neighbour across it is
/// outside the chunk or not solid.
pub proof fn lemma_faces_visible(chunk: &Chunk, n: int)
    requires
        0 <= n <= CHUNK_VOLUME,
    ensures
        forall|k: int|
            0 <= k < chunk_faces_upto(chunk, n).len() ==> {
                let f = #[trigger] chunk_faces_upto(chunk, n)[k];
                &&& in_bounds(f.x as int, f.y as int, f.z as int)
                &&& chunk.voxel_at(f.x as int, f.y as int, f.z as int).solid()
                &&& face_open(chunk, f.x as int, f.y as int, f.z as int, f.face)
            },
    decreases n,
{
    if n > 0 {
        lemma_faces_visible(chunk, n - 1);
        let (x, y, z) = cell_of(n - 1);
        lemma_cell_of(n - 1);
        lemma_open_faces_props(chunk, x, y, z, 6);
        let prev = chunk_faces_upto(chunk, n - 1);
        let fs = chunk_faces_upto(chunk, n);
        assert forall|k: int| 0 <= k < fs.len() implies {
            let f = #[trigger] fs[k];
            &&& in_bounds(f.x as int, f.y as int, f.z as int)
            &&& chunk.voxel_at(f.x as int, f.y as int, f.z as int).solid()
            &&& face_open(chunk, f.x as int, f.y as int, f.z as int, f.face)
        } by {
            if k < prev.len() {
                assert(fs[k] == prev[k]);
            } else {
                assert(fs[k] == cell_faces(chunk, x, y, z)[k - prev.len()]);
            }
        }
    }
}

proof fn lemma_face_positions_len(fs: Seq<FaceRef>)
    ensures
        face_positions(fs).len() == 4 * fs.len(),
        face_normals(fs).len() == 4 * fs.len(),
        face_uvs(fs).len() == 4 * fs.len(),
        face_indices(fs).len() == 6 * fs.len(),
        face_triangles(fs).len() == 2 * fs.len(),
    decreases fs.len(),
{
    if fs.len() > 0 {
        lemma_face_positions_len(fs.drop_last());
    }
}

/// Builds the render mesh of a list of faces: four vertices, four normals and
/// four texture coordinates per face, and two triangles over them.
pub fn build_geometry(faces: &Vec<FaceRef>) -> (r: Geometry)
    requires
        faces_in_chunk(faces@),
        faces@.len() <= 6 * CHUNK_VOLUME,
    ensures
        r.positions@ == face_positions(faces@),
        r.normals@ == face_normals(faces@),
        r.uvs@ == face_uvs(faces@),
        r.indices@ == face_indices(faces@),
{
    let mut positions: Vec<WorldPos> = Vec::new();
    let mut normals: Vec<(i32, i32, i32)> = Vec::new();
    let mut uvs: Vec<(u32, u32)> = Vec::new();
    let mut indices: Vec<u32> = Vec::new();
    let mut k: usize = 0;
    while k < faces.len()
        invariant
            faces_in_chunk(faces@),
            faces@.len() <= 6 * CHUNK_VOLUME,
            k <= faces@.len(),
            positions@ == face_positions(faces@.take(k as int)),
            normals@ == face_normals(faces@.take(k as int)),
            uvs@ == face_uvs(faces@.take(k as int)),
            indices@ == face_indices(faces@.take(k as int)),
        decreases faces@.len() - k,
    {
        let f = faces[k];
        proof {
            assert(in_bounds(faces@[k as int].x as int, faces@[k as int].y as int, faces@[k as int].z as int));
            assert(faces@.take(k + 1).drop_last() =~= faces@.take(k as int));
            assert(faces@.take(k + 1).last() == f);
            lemma_face_positions_len(faces@.take(k as int));
        }
        let corner = WorldPos::new(f.x as i64 * VOXEL_SIZE, f.y as i64 * VOXEL_SIZE, f.z as i64 * VOXEL_SIZE);
        let quad = f.face.get_vertices(corner, VOXEL_SIZE);
        let normal = f.face.get_normal();
        let base: u32 = (4 * k) as u32;
        let ghost p0 = positions@;
        let ghost n0 = normals@;
        let ghost u0 = uvs@;
        let ghost i0 = indices@;
        positions.push(quad[0]);
        positions.push(quad[1]);
        positions.push(quad[2]);
        positions.push(quad[3]);
        normals.push(normal);
        normals.push(normal);
        normals.push(normal);
        normals.push(normal);
        uvs.push((0, 0));
        uvs.push((1, 0));
        uvs.push((1, 1));
        uvs.push((0, 1));
        indices.push(base);
        indices.push(base + 1);
        indices.push(base + 2);
        indices.push(base);
        indices.push(base + 2);
        indices.push(base + 3);
        proof {
            assert(corner == face_corner(f));
            assert(positions@ =~= p0 + face_quad(f.face, face_corner(f), VOXEL_SIZE as int));
            assert(normals@ =~= n0 + seq![normal_of(f.face), normal_of(f.face), normal_of(f.face), normal_of(f.face)]);
            assert(uvs@ =~= u0 + quad_uvs());
            assert(indices@ =~= face_indices(faces@.take(k + 1)));
        }
        k = k + 1;
    }
    assert(faces@.take(k as int) =~= faces@);
    Geometry { positions, normals, uvs, indices }
}

/// Builds the collision surface of a list of faces: the same vertices as the
/// render mesh, and the same two triangles per face.
pub fn build_trimesh(faces: &Vec<FaceRef>) -> (r: TriMesh)
    requires
        faces_in_chunk(faces@),
        faces@.len() <= 6 * CHUNK_VOLUME,
    ensures
        r.vertices@ == face_positions(faces@),
        r.triangles@ == face_triangles(faces@),
{
    let mut vertices: Vec<WorldPos> = Vec::new();
    let mut triangles: Vec<(u32, u32, u32)> = Vec::new();
    let mut k: usize = 0;
    while k < faces.len()
        invariant
            faces_in_chunk(faces@),
            faces@.len() <= 6 * CHUNK_VOLUME,
            k <= faces@.len(),
            vertices@ == face_positions(faces@.take(k as int)),
            triangles@ == face_triangles(faces@.take(k as int)),
        decreases faces@.len() - k,
    {
        let f = faces[k];
        proof {
            assert(in_bounds(faces@[k as int].x as int, faces@[k as int].y as int, faces@[k as int].z as int));
            assert(faces@.take(k + 1).drop_last() =~= faces@.take(k as int));
            assert(faces@.take(k + 1).last() == f);
        }
        let corner = WorldPos::new(f.x as i64 * VOXEL_SIZE, f.y as i64 * VOXEL_SIZE, f.z as i64 * VOXEL_SIZE);
        let quad = f.face.get_vertices(corner, VOXEL_SIZE);
        let base: u32 = (4 * k) as u32;
        let ghost v0 = vertices@;
        let ghost t0 = triangles@;
        vertices.push(quad[0]);
        vertices.push(quad[1]);
        vertices.push(quad[2]);
        vertices.push(quad[3]);
        triangles.push((base, base + 1, base + 2));
        triangles.push((base, base + 2, base + 3));
        proof {
            assert(corner == face_corner(f));
            assert(vertices@ =~= v0 + face_quad(f.face, face_corner(f), VOXEL_SIZE as int));
            assert(triangles@ =~= face_triangles(faces@.take(k + 1)));
        }
        k = k + 1;
    }
    assert(faces@.take(k as int) =~= faces@);
    TriMesh { vertices, triangles }
}

/// Some cell of the chunk is solid.
pub open spec fn has_solid(chunk: &Chunk) -> bool {
    exists|x: int, y: int, z: int| in_bounds(x, y, z) && #[trigger] chunk.voxel_at(x, y, z).solid()
}

proof fn lemma_cell_faces_in(chunk: &Chunk, i: int, n: int)
    requires
        0 <= i < n,
    ensures
        chunk_faces_upto(chunk, n).len() >= cell_faces(chunk, cell_of(i).0, cell_of(i).1, cell_of(i).2).len(),
    decreases n,
{
    if i < n - 1 {
        lemma_cell_faces_in(chunk, i, n - 1);
    }
}

proof fn lemma_open_faces_complete(chunk: &Chunk, x: int, y: int, z: int, k: int, j: int)
    requires
        0 <= j < k <= 6,
        face_open(chunk, x, y, z, all_faces()[j]),
    ensures
        open_faces_upto(chunk, x, y, z, k).contains(face_ref(x, y, z, all_faces()[j])),
    decreases k,
{
    let fs = open_faces_upto(chunk, x, y, z, k);
    if j == k - 1 {
        assert(fs.last() == face_ref(x, y, z, all_faces()[j]));
        assert(fs[fs.len() - 1] == face_ref(x, y, z, all_faces()[j]));
    } else {
        lemma_open_faces_complete(chunk, x, y, z, k - 1, j);
        let prev = open_faces_upto(chunk, x, y, z, k - 1);
        let i = choose|i: int| 0 <= i < prev.len() && prev[i] == face_ref(x, y, z, all_faces()[j]);
        assert(fs[i] == prev[i]);
    }
}

proof fn lemma_chunk_faces_include(chunk: &Chunk, n: int, i: int, fr: FaceRef)
    requires
        0 <= i < n,
        cell_faces(chunk, cell_of(i).0, cell_of(i).1, cell_of(i).2).contains(fr),
    ensures
        chunk_faces_upto(chunk, n).contains(fr),
    decreases n,
{
    let fs = chunk_faces_upto(chunk, n);
    let (x, y, z) = cell_of(n - 1);
    let prev = chunk_faces_upto(chunk, n - 1);
    if i == n - 1 {
        let cf = cell_faces(chunk, x, y, z);
        let k = choose|k: int| 0 <= k < cf.len() && cf[k] == fr;
        assert(fs[prev.len() + k] == fr);
    } else {
        lemma_chunk_faces_include(chunk, n - 1, i, fr);
        let k = choose|k: int| 0 <= k < prev.len() && prev[k] == fr;
        assert(fs[k] == fr);
    }
}

/// The mesh builder misses no face: every face of a solid cell whose neighbour
/// is outside the chunk or not solid is listed.
pub proof fn lemma_faces_complete(chunk: &Chunk, x: int, y: int, z: int, f: VoxelFace)
    requires
        in_bounds(x, y, z),
        chunk.voxel_at(x, y, z).solid(),
        face_open(chunk, x, y, z, f),
    ensures
        chunk_faces(chunk).contains(face_ref(x, y, z, f)),
{
    let j: int = match f {
        VoxelFace::NegativeX => 0,
        VoxelFace::PositiveX => 1,
        VoxelFace::NegativeY => 2,
        VoxelFace::PositiveY => 3,
        VoxelFace::NegativeZ => 4,
        VoxelFace::PositiveZ => 5,
    };
    assert(all_faces()[j] == f);
    lemma_open_faces_complete(chunk, x, y, z, 6, j);
    let i = crate::world::cell_index(x, y, z);
    crate::world::lemma_cell_index(x, y, z);
    assert(cell_of(i) == (x, y, z));
    lemma_chunk_faces_include(chunk, CHUNK_VOLUME as int, i, face_ref(x, y, z, f));
}

/// A solid cell whose +Z neighbour is outside the chunk or not solid shows its
/// +Z face; following solid cells along +Z always reaches such a cell.
proof fn lemma_solid_shows_face(chunk: &Chunk, x: int, y: int, z: int)
    requires
        in_bounds(x, y, z),
        chunk.voxel_at(x, y, z).solid(),
    ensures
        chunk_faces(chunk).len() > 0,
    decreases CHUNK_VOXELS_SIZE - z,
{
    if in_bounds(x, y, z + 1) && chunk.voxel_at(x, y, z + 1).solid() {
        lemma_solid_shows_face(chunk, x, y, z + 1);
    } else {
        let i = crate::world::cell_index(x, y, z);
        crate::world::lemma_cell_index(x, y, z);
        assert(cell_of(i) == (x, y, z));
        assert(face_open(chunk, x, y, z, VoxelFace::PositiveZ));
        assert(open_faces_upto(chunk, x, y, z, 6).len() > 0) by {
            lemma_open_faces_len(chunk, x, y, z, 5);
            let prev = open_faces_upto(chunk, x, y, z, 5);
            assert(all_faces()[5] == VoxelFace::PositiveZ);
            assert(open_faces_upto(chunk, x, y, z, 6) == prev.push(face_ref(x, y, z, VoxelFace::PositiveZ)));
        }
        lemma_cell_faces_in(chunk, i, CHUNK_VOLUME as int);
    }
}

/// A chunk with a solid cell has a visible face, and one without has none.
pub proof fn lemma_faces_iff_solid(chunk: &Chunk)
    ensures
        chunk_faces(chunk).len() > 0 <==> has_solid(chunk),
{
    if has_solid(chunk) {
        let (x, y, z) = choose|x: int, y: int, z: int| in_bounds(x, y, z) && #[trigger] chunk.voxel_at(x, y, z).solid();
        lemma_solid_shows_face(chunk, x, y, z);
    }
    if chunk_faces(chunk).len() > 0 {
        lemma_faces_visible(chunk, CHUNK_VOLUME as int);
        let f = chunk_faces(chunk)[0];
        assert(chunk.voxel_at(f.x as int, f.y as int, f.z as int).solid());
    }
}

/// The render mesh of a chunk, or `None` when the chunk has no solid cell.
pub fn generate_mesh(chunk: &Chunk) -> (r: Option<Geometry>)
    requires
        chunk.wf(),
    ensures
        r is None <==> !has_solid(chunk),
        r matches Some(g) ==> g.positions@ == face_positions(chunk_faces(chunk)) && g.normals@ == face_normals(
            chunk_faces(chunk),
        ) && g.uvs@ == face_uvs(chunk_faces(chunk)) && g.indices@ == face_indices(chunk_faces(chunk)),
{
    let faces = visible_faces(chunk);
    proof {
        lemma_faces_iff_solid(chunk);
        lemma_faces_visible(chunk, CHUNK_VOLUME as int);
        lemma_chunk_faces_len(chunk, CHUNK_VOLUME as int);
    }
    if faces.len() == 0 {
        return None;
    }
    Some(build_geometry(&faces))
}

/// The collision surface of a chunk, or `None` when the chunk has no solid cell.
pub fn generate_collision_mesh(chunk: &Chunk) -> (r: Option<TriMesh>)
    requires
        chunk.wf(),
    ensures
        r is None <==> !has_solid(chunk),
        r matches Some(t) ==> t.vertices@ == face_positions(chunk_faces(chunk)) && t.triangles@ == face_triangles(
            chunk_faces(chunk),
        ),
{
    let faces = visible_faces(chunk);
    proof {
        lemma_faces_iff_solid(chunk);
        lemma_faces_visible(chunk, CHUNK_VOLUME as int);
        lemma_chunk_faces_len(chunk, CHUNK_VOLUME as int);
    }
    if faces.len() == 0 {
        return None;
    }
    Some(build_trimesh(&faces))
}

/// The corners of a list of triangles, in order.
pub open spec fn flatten_triangles(ts: Seq<(u32, u32, u32)>) -> Seq<u32>
    decreases ts.len(),
{
    if ts.len() == 0 {
        Seq::empty()
    } else {
        let t = ts.last();
        flatten_triangles(ts.drop_last()) + seq![t.0, t.1, t.2]
    }
}

/// The render mesh and the collision surface of the same faces coincide: the
/// same vertices, and the render index list is the collision triangles in order.
pub proof fn lemma_render_matches_collision(fs: Seq<FaceRef>)
    ensures
        face_indices(fs) == flatten_triangles(face_triangles(fs)),
    decreases fs.len(),
{
    if fs.len() > 0 {
        lemma_render_matches_collision(fs.drop_last());
        let prev = face_triangles(fs.drop_last());
        let ts = face_triangles(fs);
        assert(ts.drop_last().drop_last() =~= prev);
        let t1 = ts.drop_last().last();
        let t2 = ts.last();
        assert(flatten_triangles(ts.drop_last()) == flatten_triangles(prev) + seq![t1.0, t1.1, t1.2]);
        assert(flatten_triangles(ts) == flatten_triangles(ts.drop_last()) + seq![t2.0, t2.1, t2.2]);
        assert(flatten_triangles(ts) =~= face_indices(fs));
    }
}

/// Freshly built geometry of one chunk: its render mesh and collision surface,
/// each `None` when the chunk has no solid cell.
pub struct ChunkGeometry {
    pub coord: ChunkCoord,
    pub mesh: Option<Geometry>,
    pub collider: Option<TriMesh>,
}

/// Rebuilds both the render mesh and the collision surface of the chunk at
/// `coord` from its current cells, then records the chunk as fresh. Returns
/// `None`, changing nothing, where no chunk is loaded there.
pub fn rebuild_chunk_geometry(world: &mut World, coord: ChunkCoord) -> (r: Option<ChunkGeometry>)
    requires
        old(world).wf(),
    ensures
        final(world).wf(),
        r is Some <==> old(world).chunk_map().contains_key(coord),
        r is None ==> final(world).chunk_map() == old(world).chunk_map(),
        r matches Some(g) ==> {
            let chunk = old(world).chunk_map()[coord];
            &&& g.coord == coord
            &&& same_except(final(world).chunk_map(), old(world).chunk_map(), coord)
            &&& final(world).chunk_map()[coord].cells() == chunk.cells()
            &&& !final(world).chunk_map()[coord].stale_spec()
            &&& (g.mesh is None <==> !has_solid(&chunk))
            &&& (g.collider is None <==> !has_solid(&chunk))
            &&& (g.mesh matches Some(m) ==> m.positions@ == face_positions(chunk_faces(&chunk)) && m.normals@
                == face_normals(chunk_faces(&chunk)) && m.uvs@ == face_uvs(chunk_faces(&chunk)) && m.indices@
                == face_indices(chunk_faces(&chunk)))
            &&& (g.collider matches Some(t) ==> t.vertices@ == face_positions(chunk_faces(&chunk))
                && t.triangles@ == face_triangles(chunk_faces(&chunk)))
        },
{
    proof {
        world.lemma_loaded_chunks();
    }
    let (mesh, collider) = match world.get_chunk(coord) {
        Some(chunk) => (generate_mesh(chunk), generate_collision_mesh(chunk)),
        None => {
            return None;
        },
    };
    world.mark_fresh(coord);
    Some(ChunkGeometry { coord, mesh, collider })
}

/// The face across from `f`.
pub open spec fn opposite(f: VoxelFace) -> VoxelFace {
    match f {
        VoxelFace::NegativeX => VoxelFace::PositiveX,
        VoxelFace::PositiveX => VoxelFace::NegativeX,
        VoxelFace::NegativeY => VoxelFace::PositiveY,
        VoxelFace::PositiveY => VoxelFace::NegativeY,
        VoxelFace::NegativeZ => VoxelFace::PositiveZ,
        VoxelFace::PositiveZ => VoxelFace::NegativeZ,
    }
}

proof fn lemma_quad_injective(f: VoxelFace, p: WorldPos, g: VoxelFace, q: WorldPos, s: int)
    requires
        s > 0,
        crate::voxel::quad_fits(p, s),
        crate::voxel::quad_fits(q, s),
        face_quad(f, p, s) == face_quad(g, q, s),
    ensures
        f == g && p == q,
{
    let a = face_quad(f, p, s);
    let b = face_quad(g, q, s);
    assert(a[0] == b[0] && a[1] == b[1] && a[2] == b[2] && a[3] == b[3]);
    assert(wp(p.x as int, p.y as int, p.z as int) == p);
    assert(wp(q.x as int, q.y as int, q.z as int) == q);
}

proof fn lemma_quad_at(fs: Seq<FaceRef>, k: int)
    requires
        0 <= k < fs.len(),
    ensures
        face_positions(fs).subrange(4 * k, 4 * k + 4) == face_quad(fs[k].face, face_corner(fs[k]), VOXEL_SIZE as int),
    decreases fs.len(),
{
    lemma_face_positions_len(fs.drop_last());
    let prev = face_positions(fs.drop_last());
    let last = face_quad(fs.last().face, face_corner(fs.last()), VOXEL_SIZE as int);
    if k == fs.len() - 1 {
        assert(face_positions(fs).subrange(4 * k, 4 * k + 4) =~= last);
    } else {
        lemma_quad_at(fs.drop_last(), k);
        assert(face_positions(fs).subrange(4 * k, 4 * k + 4) =~= prev.subrange(4 * k, 4 * k + 4));
    }
}

/// The mesh has no quad on the square between two adjacent solid cells: for
/// solid cells `u` and its neighbour `v` across face `f`, no quad of the mesh
/// is `u`'s face `f` or `v`'s face across from it.
pub proof fn lemma_no_quad_between_solids(chunk: &Chunk, x: int, y: int, z: int, f: VoxelFace, k: int)
    requires
        in_bounds(x, y, z),
        in_bounds(x + face_normal(f).0, y + face_normal(f).1, z + face_normal(f).2),
        chunk.voxel_at(x, y, z).solid(),
        chunk.voxel_at(x + face_normal(f).0, y + face_normal(f).1, z + face_normal(f).2).solid(),
        0 <= k < chunk_faces(chunk).len(),
    ensures
        ({
            let n = face_normal(f);
            let quad = face_positions(chunk_faces(chunk)).subrange(4 * k, 4 * k + 4);
            let s = VOXEL_SIZE as int;
            &&& quad != face_quad(f, face_corner(face_ref(x, y, z, f)), s)
            &&& quad != face_quad(opposite(f), face_corner(face_ref(x + n.0, y + n.1, z + n.2, opposite(f))), s)
        }),
{
    let fs = chunk_faces(chunk);
    let n = face_normal(f);
    let s = VOXEL_SIZE as int;
    lemma_faces_visible(chunk, CHUNK_VOLUME as int);
    lemma_quad_at(fs, k);
    let e = fs[k];
    assert(in_bounds(e.x as int, e.y as int, e.z as int));
    let quad = face_quad(e.face, face_corner(e), s);
    let u = face_ref(x, y, z, f);
    let v = face_ref(x + n.0, y + n.1, z + n.2, opposite(f));
    if quad == face_quad(f, face_corner(u), s) {
        lemma_quad_injective(e.face, face_corner(e), f, face_corner(u), s);
        assert(e.x as int == x && e.y as int == y && e.z as int == z);
    }
    if quad == face_quad(opposite(f), face_corner(v), s) {
        lemma_quad_injective(e.face, face_corner(e), opposite(f), face_corner(v), s);
        assert(e.x as int == x + n.0 && e.y as int == y + n.1 && e.z as int == z + n.2);
    }
}

} // verus!
