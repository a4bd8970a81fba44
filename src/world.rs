//! Chunk store, coordinate transforms and the streaming index.
use vstd::prelude::*;
use vstd::arithmetic::div_mod::lemma_fundamental_div_mod_converse;

use crate::terrain::{TerrainGenerator, TerrainSamples, terrain_cells};
use crate::voxel::{Voxel, VoxelType, WorldPos, VOXEL_PRECISION, VOXEL_SIZE, air};

verus! {

/// Horizontal edge of a chunk in world units.
pub const CHUNK_SIZE: usize = 16;

/// Height of a chunk in world units; chunks span the whole world height.
pub const CHUNK_HEIGHT: usize = 256;

/// Chebyshev radius, in chunks, within which chunks are kept loaded.
pub const RENDER_DISTANCE: i32 = 5;

/// Chebyshev radius, in chunks, beyond which loaded chunks are evicted.
pub const UNLOAD_DISTANCE: i32 = RENDER_DISTANCE + 2;

pub const CHUNK_VOXELS_SIZE: usize = CHUNK_SIZE * VOXEL_PRECISION;

pub const CHUNK_VOXELS_HEIGHT: usize = CHUNK_HEIGHT * VOXEL_PRECISION;

/// Number of cells in a chunk.
pub const CHUNK_VOLUME: usize = CHUNK_VOXELS_SIZE * CHUNK_VOXELS_HEIGHT * CHUNK_VOXELS_SIZE;

/// Horizontal edge of a chunk in fixed-point units: `CHUNK_VOXELS_SIZE * VOXEL_SIZE`.
pub const CHUNK_WORLD_SIZE: i64 = 16000;

/// Largest magnitude of a fixed-point world coordinate (2^40 units).
pub const WORLD_LIMIT: i64 = 1099511627776;

/// Largest magnitude of a horizontal grid index: `WORLD_LIMIT / VOXEL_SIZE`
/// rounded up, so that every cell of an addressable position is addressable.
pub const GRID_LIMIT: i64 = 1099511628;

pub open spec fn abs(a: int) -> int {
    if a < 0 { -a } else { a }
}

impl WorldPos {
    /// The position lies in the part of space that the chunk grid can address.
    pub open spec fn in_world(self) -> bool {
        abs(self.x as int) <= WORLD_LIMIT && abs(self.y as int) <= WORLD_LIMIT
            && abs(self.z as int) <= WORLD_LIMIT
    }
}

/// `a` divided by a positive `b`, rounded towards negative infinity.
pub fn floor_div(a: i64, b: i64) -> (r: i64)
    requires
        b > 0,
    ensures
        r == a as int / b as int,
{
    if a >= 0 {
        ((a as u64) / (b as u64)) as i64
    } else {
        let m: i64 = -(a + 1);
        let q: i64 = ((m as u64) / (b as u64)) as i64;
        proof {
            let rr = m as int % b as int;
            vstd::arithmetic::div_mod::lemma_fundamental_div_mod(m as int, b as int);
            assert(0 <= rr < b);
            assert(a as int == (-(q as int) - 1) * b + (b - rr - 1)) by (nonlinear_arith)
                requires
                    m as int == b * (q as int) + rr,
                    a as int == -(m as int) - 1,
            ;
            lemma_fundamental_div_mod_converse(a as int, b as int, -(q as int) - 1, b - rr - 1);
        }
        -q - 1
    }
}

/// The coordinate of a chunk on the horizontal chunk grid.
#[derive(Clone, Copy, Debug, PartialEq, Eq, Hash, Structural)]
pub struct ChunkCoord {
    pub x: i32,
    pub z: i32,
}

/// The chunk column that holds a world position.
pub open spec fn chunk_x_of(v: int) -> int {
    v / (CHUNK_WORLD_SIZE as int)
}

pub open spec fn chunk_of(p: WorldPos) -> (int, int) {
    (chunk_x_of(p.x as int), chunk_x_of(p.z as int))
}

/// The fixed-point coordinate of a chunk's minimum corner along one axis.
pub open spec fn chunk_origin(c: int) -> int {
    c * CHUNK_WORLD_SIZE
}

impl ChunkCoord {
    pub fn new(x: i32, z: i32) -> (r: ChunkCoord)
        ensures
            r.x == x && r.z == z,
    {
        ChunkCoord { x, z }
    }

    /// The chunk that holds a world position, by floored division.
    pub fn from_world_pos(world_pos: WorldPos) -> (r: ChunkCoord)
        requires
            world_pos.in_world(),
        ensures
            (r.x as int, r.z as int) == chunk_of(world_pos),
    {
        let x = floor_div(world_pos.x, CHUNK_WORLD_SIZE);
        let z = floor_div(world_pos.z, CHUNK_WORLD_SIZE);
        proof {
            lemma_chunk_fits(world_pos.x as int);
            lemma_chunk_fits(world_pos.z as int);
        }
        ChunkCoord { x: x as i32, z: z as i32 }
    }
}

pub proof fn lemma_chunk_fits(v: int)
    requires
        abs(v) <= WORLD_LIMIT,
    ensures
        -100000000 <= chunk_x_of(v) <= 100000000,
{
    assert(-100000000 <= v / 16000 <= 100000000) by (nonlinear_arith)
        requires
            -1099511627776 <= v <= 1099511627776,
    ;
}

/// The local indices lie inside a chunk.
pub open spec fn in_bounds(x: int, y: int, z: int) -> bool {
    0 <= x < CHUNK_VOXELS_SIZE && 0 <= y < CHUNK_VOXELS_HEIGHT && 0 <= z < CHUNK_VOXELS_SIZE
}

/// Position of a cell in a chunk's dense array: x outermost, z innermost.
pub open spec fn cell_index(x: int, y: int, z: int) -> int {
    (x * CHUNK_VOXELS_HEIGHT + y) * CHUNK_VOXELS_SIZE + z
}

pub proof fn lemma_cell_index(x: int, y: int, z: int)
    requires
        in_bounds(x, y, z),
    ensures
        0 <= cell_index(x, y, z) < CHUNK_VOLUME,
        cell_index(x, y, z) / (CHUNK_VOXELS_SIZE as int) == x * CHUNK_VOXELS_HEIGHT + y,
        cell_index(x, y, z) % (CHUNK_VOXELS_SIZE as int) == z,
        (x * CHUNK_VOXELS_HEIGHT + y) / (CHUNK_VOXELS_HEIGHT as int) == x,
        (x * CHUNK_VOXELS_HEIGHT + y) % (CHUNK_VOXELS_HEIGHT as int) == y,
{
    let s = CHUNK_VOXELS_SIZE as int;
    let h = CHUNK_VOXELS_HEIGHT as int;
    assert(0 <= x * h + y < s * h) by (nonlinear_arith)
        requires
            0 <= x < s,
            0 <= y < h,
            s == 16,
            h == 256,
    ;
    assert(0 <= (x * h + y) * s + z < s * h * s) by (nonlinear_arith)
        requires
            0 <= x * h + y < s * h,
            0 <= z < s,
            s == 16,
            h == 256,
    ;
    lemma_fundamental_div_mod_converse(cell_index(x, y, z), s, x * h + y, z);
    lemma_fundamental_div_mod_converse(x * h + y, h, x, y);
}

/// The local indices of the cell stored at position `i` of a chunk's array.
pub open spec fn cell_of(i: int) -> (int, int, int) {
    ((i / (CHUNK_VOXELS_SIZE as int)) / (CHUNK_VOXELS_HEIGHT as int), (i / (CHUNK_VOXELS_SIZE as int)) % (
    CHUNK_VOXELS_HEIGHT as int), i % (CHUNK_VOXELS_SIZE as int))
}

pub proof fn lemma_cell_of(i: int)
    requires
        0 <= i < CHUNK_VOLUME,
    ensures
        in_bounds(cell_of(i).0, cell_of(i).1, cell_of(i).2),
        cell_index(cell_of(i).0, cell_of(i).1, cell_of(i).2) == i,
{
    let s = CHUNK_VOXELS_SIZE as int;
    let h = CHUNK_VOXELS_HEIGHT as int;
    let q = i / s;
    vstd::arithmetic::div_mod::lemma_fundamental_div_mod(i, s);
    vstd::arithmetic::div_mod::lemma_fundamental_div_mod(q, h);
    assert(0 <= q < s * h) by (nonlinear_arith)
        requires
            i == s * q + i % s,
            0 <= i % s < s,
            0 <= i < s * h * s,
            s == 16,
            h == 256,
    ;
    assert(0 <= q / h < s) by (nonlinear_arith)
        requires
            q == h * (q / h) + q % h,
            0 <= q % h < h,
            0 <= q < s * h,
            s == 16,
            h == 256,
    ;
    assert(((q / h) * h + q % h) * s + i % s == i) by (nonlinear_arith)
        requires
            q == h * (q / h) + q % h,
            i == s * q + i % s,
    ;
}

/// A fixed-size column of cells tied to one chunk coordinate.
pub struct Chunk {
    coord: ChunkCoord,
    voxels: Vec<Voxel>,
    stale: bool,
}

impl Chunk {
    /// The array covers exactly the chunk's cells.
    pub open spec fn wf(&self) -> bool {
        self.cells().len() == CHUNK_VOLUME
    }

    /// The coordinate the chunk is tied to for its whole life.
    pub closed spec fn coord_spec(&self) -> ChunkCoord {
        self.coord
    }

    pub fn coord(&self) -> (r: ChunkCoord)
        ensures
            r == self.coord_spec(),
    {
        self.coord
    }

    /// The dense cell array, x outermost and z innermost.
    pub closed spec fn cells(&self) -> Seq<Voxel> {
        self.voxels@
    }

    /// Whether derived geometry no longer matches the cells.
    pub closed spec fn stale_spec(&self) -> bool {
        self.stale
    }

    pub open spec fn voxel_at(&self, x: int, y: int, z: int) -> Voxel {
        self.cells()[cell_index(x, y, z)]
    }

    /// A chunk at `coord` whose cells are all air; its geometry is still to be built.
    pub fn new(coord: ChunkCoord) -> (r: Chunk)
        ensures
            r.coord_spec() == coord,
            r.cells() == Seq::new(CHUNK_VOLUME as nat, |i: int| air()),
            r.stale_spec(),
            r.wf(),
    {
        let mut voxels: Vec<Voxel> = Vec::with_capacity(CHUNK_VOLUME);
        let mut i: usize = 0;
        while i < CHUNK_VOLUME
            invariant
                i <= CHUNK_VOLUME,
                voxels@ == Seq::new(i as nat, |k: int| air()),
            decreases CHUNK_VOLUME - i,
        {
            voxels.push(Voxel::default());
            i = i + 1;
            assert(voxels@ =~= Seq::new(i as nat, |k: int| air()));
        }
        Chunk { coord, voxels, stale: true }
    }

    /// The cell at local indices, or `None` outside the chunk.
    pub fn get_voxel(&self, x: usize, y: usize, z: usize) -> (r: Option<&Voxel>)
        requires
            self.wf(),
        ensures
            in_bounds(x as int, y as int, z as int) ==> r == Some(&self.voxel_at(x as int, y as int, z as int)),
            !in_bounds(x as int, y as int, z as int) ==> r is None,
    {
        if x < CHUNK_VOXELS_SIZE && y < CHUNK_VOXELS_HEIGHT && z < CHUNK_VOXELS_SIZE {
            proof {
                lemma_cell_index(x as int, y as int, z as int);
            }
            Some(&self.voxels[(x * CHUNK_VOXELS_HEIGHT + y) * CHUNK_VOXELS_SIZE + z])
        } else {
            None
        }
    }

    /// Overwrites the cell at local indices; does nothing outside the chunk.
    pub fn set_voxel(&mut self, x: usize, y: usize, z: usize, voxel: Voxel)
        requires
            old(self).wf(),
        ensures
            final(self).coord_spec() == old(self).coord_spec(),
            final(self).stale_spec() == old(self).stale_spec(),
            final(self).wf(),
            in_bounds(x as int, y as int, z as int) ==> final(self).cells() == old(self).cells().update(
                cell_index(x as int, y as int, z as int),
                voxel,
            ),
            !in_bounds(x as int, y as int, z as int) ==> final(self).cells() == old(self).cells(),
    {
        if x < CHUNK_VOXELS_SIZE && y < CHUNK_VOXELS_HEIGHT && z < CHUNK_VOXELS_SIZE {
            proof {
                lemma_cell_index(x as int, y as int, z as int);
            }
            self.voxels.set((x * CHUNK_VOXELS_HEIGHT + y) * CHUNK_VOXELS_SIZE + z, voxel);
        }
    }

    /// Whether the chunk's geometry must be rebuilt.
    pub fn is_stale(&self) -> (r: bool)
        ensures
            r == self.stale_spec(),
    {
        self.stale
    }

    /// Records whether the chunk's geometry must be rebuilt.
    pub fn set_stale(&mut self, stale: bool)
        ensures
            final(self).coord_spec() == old(self).coord_spec(),
            final(self).cells() == old(self).cells(),
            final(self).stale_spec() == stale,
    {
        self.stale = stale;
    }

    /// The world-space center of the cell at local indices.
    pub fn voxel_to_world(&self, x: usize, y: usize, z: usize) -> (r: WorldPos)
        requires
            x <= u32::MAX && y <= u32::MAX && z <= u32::MAX,
        ensures
            r.x == chunk_origin(self.coord_spec().x as int) + cell_center(x as int),
            r.y == cell_center(y as int),
            r.z == chunk_origin(self.coord_spec().z as int) + cell_center(z as int),
    {
        let cx = self.coord.x as i64 * CHUNK_WORLD_SIZE;
        let cz = self.coord.z as i64 * CHUNK_WORLD_SIZE;
        WorldPos::new(
            cx + x as i64 * VOXEL_SIZE + VOXEL_SIZE / 2,
            y as i64 * VOXEL_SIZE + VOXEL_SIZE / 2,
            cz + z as i64 * VOXEL_SIZE + VOXEL_SIZE / 2,
        )
    }
}

/// Offset of the center of cell `i` from the origin of its axis.
pub open spec fn cell_center(i: int) -> int {
    i * VOXEL_SIZE + VOXEL_SIZE / 2
}


/// Largest load or eviction radius, in chunks.
pub const MAX_RADIUS: i32 = 1000;

/// The chunk-space point of a world position, as a pair of chunk indices.
pub open spec fn coord_of(p: WorldPos) -> ChunkCoord {
    ChunkCoord { x: chunk_of(p).0 as i32, z: chunk_of(p).1 as i32 }
}

/// Local indices of the cell holding `p` inside the chunk `coord_of(p)`.
pub open spec fn local_of(p: WorldPos) -> (int, int, int) {
    (
        (p.x - chunk_origin(chunk_of(p).0)) / (VOXEL_SIZE as int),
        (p.y as int) / (VOXEL_SIZE as int),
        (p.z - chunk_origin(chunk_of(p).1)) / (VOXEL_SIZE as int),
    )
}

/// `p` lies within the vertical extent of the chunks.
pub open spec fn in_height(p: WorldPos) -> bool {
    0 <= p.y < CHUNK_VOXELS_HEIGHT * VOXEL_SIZE
}

/// Chebyshev distance from a chunk to a chunk-space center is at most `r`.
pub open spec fn near(c: ChunkCoord, center: (int, int), r: int) -> bool {
    abs(c.x - center.0) <= r && abs(c.z - center.1) <= r
}

/// The square of chunks within Chebyshev distance `r` of `center`.
pub open spec fn square(center: (int, int), r: int) -> Set<ChunkCoord> {
    Set::new(|c: ChunkCoord| near(c, center, r))
}

pub open spec fn has_coord(s: Seq<Chunk>, c: ChunkCoord) -> bool {
    exists|i: int| 0 <= i < s.len() && s[i].coord_spec() == c
}

pub open spec fn coords_unique(s: Seq<Chunk>) -> bool {
    forall|i: int, j: int|
        0 <= i < s.len() && 0 <= j < s.len() && #[trigger] s[i].coord_spec() == #[trigger] s[j].coord_spec()
            ==> i == j
}

/// The index that a list of chunks with distinct coordinates describes.
pub open spec fn chunk_map_of(s: Seq<Chunk>) -> Map<ChunkCoord, Chunk> {
    Map::new(
        |c: ChunkCoord| has_coord(s, c),
        |c: ChunkCoord| s[choose|i: int| 0 <= i < s.len() && s[i].coord_spec() == c],
    )
}

proof fn lemma_map_at(s: Seq<Chunk>, i: int)
    requires
        coords_unique(s),
        0 <= i < s.len(),
    ensures
        chunk_map_of(s).contains_key(s[i].coord_spec()),
        chunk_map_of(s)[s[i].coord_spec()] == s[i],
{
    let c = s[i].coord_spec();
    assert(has_coord(s, c));
    let j = choose|j: int| 0 <= j < s.len() && s[j].coord_spec() == c;
    assert(s[j].coord_spec() == s[i].coord_spec());
}

proof fn lemma_map_push(s: Seq<Chunk>, ch: Chunk)
    requires
        coords_unique(s),
        !has_coord(s, ch.coord_spec()),
    ensures
        coords_unique(s.push(ch)),
        chunk_map_of(s.push(ch)) == chunk_map_of(s).insert(ch.coord_spec(), ch),
{
    let t = s.push(ch);
    assert forall|i: int, j: int|
        0 <= i < t.len() && 0 <= j < t.len() && #[trigger] t[i].coord_spec() == #[trigger] t[j].coord_spec()
            implies i == j by {
        if i < s.len() && j == s.len() {
            assert(has_coord(s, ch.coord_spec()));
        }
        if j < s.len() && i == s.len() {
            assert(has_coord(s, ch.coord_spec()));
        }
    }
    assert forall|c: ChunkCoord| has_coord(t, c) <==> has_coord(s, c) || c == ch.coord_spec() by {
        if has_coord(t, c) && c != ch.coord_spec() {
            let i = choose|i: int| 0 <= i < t.len() && t[i].coord_spec() == c;
            assert(s[i].coord_spec() == c);
        }
        if has_coord(s, c) {
            let i = choose|i: int| 0 <= i < s.len() && s[i].coord_spec() == c;
            assert(t[i].coord_spec() == c);
        }
        if c == ch.coord_spec() {
            assert(t[s.len() as int].coord_spec() == c);
        }
    }
    assert forall|c: ChunkCoord| #[trigger] chunk_map_of(t).contains_key(c) implies chunk_map_of(t)[c]
        == chunk_map_of(s).insert(ch.coord_spec(), ch)[c] by {
        let i = choose|i: int| 0 <= i < t.len() && t[i].coord_spec() == c;
        lemma_map_at(t, i);
        if i < s.len() {
            lemma_map_at(s, i);
        }
    }
    assert(chunk_map_of(t) =~= chunk_map_of(s).insert(ch.coord_spec(), ch));
}

proof fn lemma_has_coord_push(s: Seq<Chunk>, ch: Chunk, c: ChunkCoord)
    ensures
        has_coord(s.push(ch), c) <==> has_coord(s, c) || c == ch.coord_spec(),
{
    let t = s.push(ch);
    if has_coord(t, c) && c != ch.coord_spec() {
        let i = choose|i: int| 0 <= i < t.len() && t[i].coord_spec() == c;
        assert(s[i].coord_spec() == c);
    }
    if has_coord(s, c) {
        let i = choose|i: int| 0 <= i < s.len() && s[i].coord_spec() == c;
        assert(t[i].coord_spec() == c);
    }
    if c == ch.coord_spec() {
        assert(t[s.len() as int].coord_spec() == c);
    }
}

/// Some chunk at position `lo` or later in `s` has coordinate `c`.
pub open spec fn coord_in_range(s: Seq<Chunk>, lo: int, c: ChunkCoord) -> bool {
    exists|j: int| lo <= j < s.len() && #[trigger] s[j].coord_spec() == c
}

proof fn lemma_range_step(s: Seq<Chunk>, k: int, c: ChunkCoord)
    requires
        0 <= k < s.len(),
    ensures
        coord_in_range(s, k, c) <==> coord_in_range(s, k + 1, c) || s[k].coord_spec() == c,
{
    if coord_in_range(s, k, c) {
        let j = choose|j: int| k <= j < s.len() && #[trigger] s[j].coord_spec() == c;
        if j != k {
            assert(coord_in_range(s, k + 1, c));
        }
    }
    if coord_in_range(s, k + 1, c) {
        let j = choose|j: int| k + 1 <= j < s.len() && #[trigger] s[j].coord_spec() == c;
        assert(coord_in_range(s, k, c));
    }
    if s[k].coord_spec() == c {
        assert(coord_in_range(s, k, c));
    }
}

proof fn lemma_range_unique(s: Seq<Chunk>, k: int)
    requires
        coords_unique(s),
        0 <= k < s.len(),
    ensures
        !coord_in_range(s, k + 1, s[k].coord_spec()),
{
    if coord_in_range(s, k + 1, s[k].coord_spec()) {
        let j = choose|j: int| k + 1 <= j < s.len() && #[trigger] s[j].coord_spec() == s[k].coord_spec();
    }
}

proof fn lemma_range_all(s: Seq<Chunk>, c: ChunkCoord)
    ensures
        coord_in_range(s, 0, c) <==> has_coord(s, c),
        coord_in_range(s, 0, c) <==> chunk_map_of(s).contains_key(c),
{
    if has_coord(s, c) {
        let j = choose|j: int| 0 <= j < s.len() && s[j].coord_spec() == c;
        assert(coord_in_range(s, 0, c));
    }
}

pub proof fn lemma_push_contains<T>(s: Seq<T>, a: T, c: T)
    ensures
        s.push(a).contains(c) <==> s.contains(c) || c == a,
{
    let t = s.push(a);
    if t.contains(c) {
        let i = choose|i: int| 0 <= i < t.len() && t[i] == c;
        if i < s.len() {
            assert(s[i] == c);
        }
    }
    if s.contains(c) {
        let i = choose|i: int| 0 <= i < s.len() && s[i] == c;
        assert(t[i] == c);
    }
    if c == a {
        assert(t[s.len() as int] == c);
    }
}

pub proof fn lemma_push_no_duplicates<T>(s: Seq<T>, a: T)
    requires
        s.no_duplicates(),
        !s.contains(a),
    ensures
        s.push(a).no_duplicates(),
{
    let t = s.push(a);
    assert forall|i: int, j: int| 0 <= i < t.len() && 0 <= j < t.len() && i != j implies t[i] != t[j] by {
        if i == s.len() {
            assert(s[j] == t[j]);
        }
        if j == s.len() {
            assert(s[i] == t[i]);
        }
    }
}

proof fn lemma_map_update(s: Seq<Chunk>, i: int, ch: Chunk)
    requires
        coords_unique(s),
        0 <= i < s.len(),
        ch.coord_spec() == s[i].coord_spec(),
    ensures
        coords_unique(s.update(i, ch)),
        chunk_map_of(s.update(i, ch)) == chunk_map_of(s).insert(ch.coord_spec(), ch),
{
    let t = s.update(i, ch);
    assert forall|a: int, b: int|
        0 <= a < t.len() && 0 <= b < t.len() && #[trigger] t[a].coord_spec() == #[trigger] t[b].coord_spec()
            implies a == b by {
        assert(s[a].coord_spec() == t[a].coord_spec());
        assert(s[b].coord_spec() == t[b].coord_spec());
    }
    assert forall|c: ChunkCoord| has_coord(t, c) <==> has_coord(s, c) by {
        if has_coord(t, c) {
            let k = choose|k: int| 0 <= k < t.len() && t[k].coord_spec() == c;
            assert(s[k].coord_spec() == c);
        }
        if has_coord(s, c) {
            let k = choose|k: int| 0 <= k < s.len() && s[k].coord_spec() == c;
            assert(t[k].coord_spec() == c);
        }
    }
    assert forall|c: ChunkCoord| #[trigger] chunk_map_of(t).contains_key(c) implies chunk_map_of(t)[c]
        == chunk_map_of(s).insert(ch.coord_spec(), ch)[c] by {
        let k = choose|k: int| 0 <= k < t.len() && t[k].coord_spec() == c;
        lemma_map_at(t, k);
        lemma_map_at(s, k);
    }
    assert(chunk_map_of(t) =~= chunk_map_of(s).insert(ch.coord_spec(), ch));
}

/// The loaded chunks, indexed by coordinate, with the streaming radii.
pub struct World {
    chunks: Vec<Chunk>,
    load_radius: i32,
    unload_radius: i32,
    terrain_generator: TerrainGenerator,
}

impl World {
    /// Loaded chunks by coordinate: a coordinate is absent or maps to one chunk.
    pub closed spec fn chunk_map(&self) -> Map<ChunkCoord, Chunk> {
        chunk_map_of(self.chunks@)
    }

    pub closed spec fn load_radius_spec(&self) -> int {
        self.load_radius as int
    }

    pub closed spec fn unload_radius_spec(&self) -> int {
        self.unload_radius as int
    }

    pub closed spec fn generator(&self) -> TerrainGenerator {
        self.terrain_generator
    }

    pub closed spec fn wf(&self) -> bool {
        &&& coords_unique(self.chunks@)
        &&& forall|i: int| 0 <= i < self.chunks@.len() ==> (#[trigger] self.chunks@[i]).wf()
        &&& 0 <= self.load_radius <= self.unload_radius <= MAX_RADIUS
    }

    /// Every loaded chunk is well formed and sits under its own coordinate.
    pub proof fn lemma_loaded_chunks(&self)
        requires
            self.wf(),
        ensures
            forall|c: ChunkCoord| #[trigger] self.chunk_map().contains_key(c) ==> self.chunk_map()[c].wf()
                && self.chunk_map()[c].coord_spec() == c,
            0 <= self.load_radius_spec() <= self.unload_radius_spec() <= MAX_RADIUS,
    {
        assert forall|c: ChunkCoord| #[trigger] self.chunk_map().contains_key(c) implies self.chunk_map()[c].wf()
            && self.chunk_map()[c].coord_spec() == c by {
            let i = choose|i: int| 0 <= i < self.chunks@.len() && self.chunks@[i].coord_spec() == c;
            lemma_map_at(self.chunks@, i);
        }
    }

    /// An empty world with the given load and eviction radii.
    pub fn with_radii(load_radius: i32, unload_radius: i32) -> (r: World)
        requires
            0 <= load_radius <= unload_radius <= MAX_RADIUS,
        ensures
            r.wf(),
            r.chunk_map() == Map::<ChunkCoord, Chunk>::empty(),
            r.load_radius_spec() == load_radius,
            r.unload_radius_spec() == unload_radius,
    {
        let r = World {
            chunks: Vec::new(),
            load_radius,
            unload_radius,
            terrain_generator: TerrainGenerator::new(),
        };
        assert(r.chunk_map() =~= Map::<ChunkCoord, Chunk>::empty());
        r
    }

    /// An empty world with the configured radii.
    pub fn new() -> (r: World)
        ensures
            r.wf(),
            r.chunk_map() == Map::<ChunkCoord, Chunk>::empty(),
            r.load_radius_spec() == RENDER_DISTANCE,
            r.unload_radius_spec() == UNLOAD_DISTANCE,
    {
        World::with_radii(RENDER_DISTANCE, UNLOAD_DISTANCE)
    }

    /// The generator whose seeds the terrain samples come from.
    pub fn terrain_generator(&self) -> (r: &TerrainGenerator)
        ensures
            *r == self.generator(),
    {
        &self.terrain_generator
    }

    fn find(&self, coord: ChunkCoord) -> (r: Option<usize>)
        requires
            self.wf(),
        ensures
            r is None <==> !self.chunk_map().contains_key(coord),
            r matches Some(i) ==> i < self.chunks@.len() && self.chunks@[i as int].coord_spec() == coord
                && self.chunk_map()[coord] == self.chunks@[i as int],
    {
        let mut i: usize = 0;
        while i < self.chunks.len()
            invariant
                i <= self.chunks@.len(),
                self.wf(),
                forall|k: int| 0 <= k < i ==> (#[trigger] self.chunks@[k]).coord_spec() != coord,
            decreases self.chunks@.len() - i,
        {
            if self.chunks[i].coord() == coord {
                proof {
                    lemma_map_at(self.chunks@, i as int);
                }
                return Some(i);
            }
            i = i + 1;
        }
        None
    }

    /// Whether a chunk is loaded at `coord`.
    pub fn is_loaded(&self, coord: ChunkCoord) -> (r: bool)
        requires
            self.wf(),
        ensures
            r == self.chunk_map().contains_key(coord),
    {
        self.find(coord).is_some()
    }

    /// The chunk loaded at `coord`, if any.
    pub fn get_chunk(&self, coord: ChunkCoord) -> (r: Option<&Chunk>)
        requires
            self.wf(),
        ensures
            self.chunk_map().contains_key(coord) ==> r == Some(&self.chunk_map()[coord]),
            !self.chunk_map().contains_key(coord) ==> r is None,
    {
        match self.find(coord) {
            Some(i) => Some(&self.chunks[i]),
            None => None,
        }
    }

    /// The coordinates of all loaded chunks, each once.
    pub fn loaded_coords(&self) -> (r: Vec<ChunkCoord>)
        requires
            self.wf(),
        ensures
            r@.no_duplicates(),
            forall|c: ChunkCoord| r@.contains(c) <==> self.chunk_map().contains_key(c),
    {
        let mut r: Vec<ChunkCoord> = Vec::new();
        let mut i: usize = 0;
        while i < self.chunks.len()
            invariant
                i <= self.chunks@.len(),
                self.wf(),
                r@.len() == i,
                forall|k: int| 0 <= k < i ==> r@[k] == (#[trigger] self.chunks@[k]).coord_spec(),
            decreases self.chunks@.len() - i,
        {
            r.push(self.chunks[i].coord());
            i = i + 1;
        }
        assert forall|c: ChunkCoord| r@.contains(c) <==> self.chunk_map().contains_key(c) by {
            if r@.contains(c) {
                let k = choose|k: int| 0 <= k < r@.len() && r@[k] == c;
                assert(self.chunks@[k].coord_spec() == c);
            }
            if self.chunk_map().contains_key(c) {
                let k = choose|k: int| 0 <= k < self.chunks@.len() && self.chunks@[k].coord_spec() == c;
                assert(r@[k] == c);
            }
        }
        assert forall|a: int, b: int| 0 <= a < r@.len() && 0 <= b < r@.len() && a != b implies r@[a] != r@[b] by {
            assert(self.chunks@[a].coord_spec() == r@[a]);
            assert(self.chunks@[b].coord_spec() == r@[b]);
        }
        r
    }

    /// Resolves a world position to its chunk and the cell's local indices:
    /// `None` when that chunk is not loaded or the position lies outside the
    /// chunks' vertical extent.
    pub fn world_to_voxel(&self, world_pos: WorldPos) -> (r: Option<(ChunkCoord, usize, usize, usize)>)
        requires
            self.wf(),
            world_pos.in_world(),
        ensures
            r is Some <==> self.chunk_map().contains_key(coord_of(world_pos)) && in_height(world_pos),
            r matches Some((c, x, y, z)) ==> c == coord_of(world_pos) && (x as int, y as int, z as int)
                == local_of(world_pos) && in_bounds(x as int, y as int, z as int),
    {
        let chunk_coord = ChunkCoord::from_world_pos(world_pos);
        if !self.is_loaded(chunk_coord) {
            return None;
        }
        if world_pos.y < 0 {
            return None;
        }
        let local_x = world_pos.x - chunk_coord.x as i64 * CHUNK_WORLD_SIZE;
        let local_z = world_pos.z - chunk_coord.z as i64 * CHUNK_WORLD_SIZE;
        proof {
            lemma_local_in_chunk(world_pos.x as int);
            lemma_local_in_chunk(world_pos.z as int);
        }
        let voxel_x = floor_div(local_x, VOXEL_SIZE);
        let voxel_y = floor_div(world_pos.y, VOXEL_SIZE);
        let voxel_z = floor_div(local_z, VOXEL_SIZE);
        if voxel_y >= CHUNK_VOXELS_HEIGHT as i64 {
            return None;
        }
        Some((chunk_coord, voxel_x as usize, voxel_y as usize, voxel_z as usize))
    }

    /// The cell at a world position, or `None` where `world_to_voxel` finds none.
    pub fn get_voxel_at_world(&self, world_pos: WorldPos) -> (r: Option<Voxel>)
        requires
            self.wf(),
            world_pos.in_world(),
        ensures
            r == (if self.chunk_map().contains_key(coord_of(world_pos)) && in_height(world_pos) {
                Some(
                    self.chunk_map()[coord_of(world_pos)].voxel_at(
                        local_of(world_pos).0,
                        local_of(world_pos).1,
                        local_of(world_pos).2,
                    ),
                )
            } else {
                None
            }),
    {
        match self.world_to_voxel(world_pos) {
            Some((c, x, y, z)) => {
                let i = self.find(c).unwrap();
                proof {
                    lemma_map_at(self.chunks@, i as int);
                }
                match self.chunks[i].get_voxel(x, y, z) {
                    Some(v) => Some(*v),
                    None => None,
                }
            },
            None => None,
        }
    }

    /// Writes the cell at a world position and marks its chunk's geometry
    /// stale. Returns false, changing nothing, where `world_to_voxel` finds no cell.
    pub fn set_voxel_at_world(&mut self, world_pos: WorldPos, voxel: Voxel) -> (r: bool)
        requires
            old(self).wf(),
            world_pos.in_world(),
        ensures
            final(self).wf(),
            final(self).load_radius_spec() == old(self).load_radius_spec(),
            final(self).unload_radius_spec() == old(self).unload_radius_spec(),
            final(self).generator() == old(self).generator(),
            r == (old(self).chunk_map().contains_key(coord_of(world_pos)) && in_height(world_pos)),
            !r ==> final(self).chunk_map() == old(self).chunk_map(),
            r ==> same_except(final(self).chunk_map(), old(self).chunk_map(), coord_of(world_pos)),
            r ==> final(self).chunk_map()[coord_of(world_pos)].cells() == old(self).chunk_map()[coord_of(
                world_pos,
            )].cells().update(
                cell_index(local_of(world_pos).0, local_of(world_pos).1, local_of(world_pos).2),
                voxel,
            ),
            r ==> final(self).chunk_map()[coord_of(world_pos)].stale_spec(),
    {
        match self.world_to_voxel(world_pos) {
            Some((c, x, y, z)) => {
                let i = self.find(c).unwrap();
                let ghost old_chunks = self.chunks@;
                let chunk = &mut self.chunks[i];
                chunk.set_voxel(x, y, z, voxel);
                chunk.set_stale(true);
                proof {
                    lemma_map_at(old_chunks, i as int);
                    lemma_map_update(old_chunks, i as int, self.chunks@[i as int]);
                    assert(self.chunks@ == old_chunks.update(i as int, self.chunks@[i as int]));
                    assert(chunk_map_of(self.chunks@).dom() =~= chunk_map_of(old_chunks).dom());
                    assert forall|k: int| 0 <= k < self.chunks@.len() implies (#[trigger] self.chunks@[k]).wf() by {
                        if k != i {
                            assert(self.chunks@[k] == old_chunks[k]);
                        }
                    }
                }
                true
            },
            None => false,
        }
    }

    /// Creates the chunk at `coord`, fills it from the terrain samples and only
    /// then publishes it. Returns false, changing nothing, where a chunk is
    /// already loaded there.
    pub fn load_chunk(&mut self, coord: ChunkCoord, samples: &TerrainSamples) -> (r: bool)
        requires
            old(self).wf(),
            samples.wf(),
        ensures
            final(self).wf(),
            final(self).load_radius_spec() == old(self).load_radius_spec(),
            final(self).unload_radius_spec() == old(self).unload_radius_spec(),
            final(self).generator() == old(self).generator(),
            r == !old(self).chunk_map().contains_key(coord),
            !r ==> final(self).chunk_map() == old(self).chunk_map(),
            r ==> final(self).chunk_map().contains_key(coord) && final(self).chunk_map().remove(coord)
                == old(self).chunk_map(),
            r ==> final(self).chunk_map()[coord].cells() == terrain_cells(samples),
            r ==> final(self).chunk_map()[coord].stale_spec(),
    {
        if self.is_loaded(coord) {
            return false;
        }
        let mut chunk = Chunk::new(coord);
        self.terrain_generator.generate_chunk(&mut chunk, samples);
        let ghost old_chunks = self.chunks@;
        proof {
            lemma_map_push(old_chunks, chunk);
        }
        self.chunks.push(chunk);
        proof {
            assert(chunk_map_of(old_chunks).insert(coord, chunk).remove(coord) =~= chunk_map_of(old_chunks));
            assert forall|k: int| 0 <= k < self.chunks@.len() implies (#[trigger] self.chunks@[k]).wf() by {
                if k < old_chunks.len() {
                    assert(self.chunks@[k] == old_chunks[k]);
                }
            }
        }
        true
    }

    /// The coordinates within the load radius of the viewer's chunk that are
    /// not loaded yet, each once.
    pub fn chunks_to_load(&self, viewer: WorldPos) -> (r: Vec<ChunkCoord>)
        requires
            self.wf(),
            viewer.in_world(),
        ensures
            r@.no_duplicates(),
            forall|c: ChunkCoord|
                r@.contains(c) <==> near(c, chunk_of(viewer), self.load_radius_spec())
                    && !self.chunk_map().contains_key(c),
    {
        let center = ChunkCoord::from_world_pos(viewer);
        proof {
            lemma_chunk_fits(viewer.x as int);
            lemma_chunk_fits(viewer.z as int);
        }
        let rad = self.load_radius;
        let mut r: Vec<ChunkCoord> = Vec::new();
        let mut x: i32 = center.x - rad;
        while x <= center.x + rad
            invariant
                self.wf(),
                rad == self.load_radius_spec(),
                0 <= rad <= MAX_RADIUS,
                -100000000 <= center.x <= 100000000,
                -100000000 <= center.z <= 100000000,
                (center.x as int, center.z as int) == chunk_of(viewer),
                center.x - rad <= x <= center.x + rad + 1,
                r@.no_duplicates(),
                forall|c: ChunkCoord|
                    r@.contains(c) <==> near(c, chunk_of(viewer), rad as int) && c.x < x
                        && !self.chunk_map().contains_key(c),
            decreases center.x + rad + 1 - x,
        {
            let mut z: i32 = center.z - rad;
            while z <= center.z + rad
                invariant
                    self.wf(),
                    rad == self.load_radius_spec(),
                    0 <= rad <= MAX_RADIUS,
                    -100000000 <= center.x <= 100000000,
                    -100000000 <= center.z <= 100000000,
                    (center.x as int, center.z as int) == chunk_of(viewer),
                    center.x - rad <= x <= center.x + rad,
                    center.z - rad <= z <= center.z + rad + 1,
                    r@.no_duplicates(),
                    forall|c: ChunkCoord|
                        r@.contains(c) <==> near(c, chunk_of(viewer), rad as int) && !self.chunk_map().contains_key(c)
                            && (c.x < x || (c.x == x && c.z < z)),
                decreases center.z + rad + 1 - z,
            {
                let coord = ChunkCoord::new(x, z);
                let ghost r0 = r@;
                let fresh = !self.is_loaded(coord);
                if fresh {
                    proof {
                        assert(!r@.contains(coord));
                        lemma_push_no_duplicates(r0, coord);
                    }
                    r.push(coord);
                }
                proof {
                    assert forall|c: ChunkCoord|
                        r@.contains(c) <==> near(c, chunk_of(viewer), rad as int) && !self.chunk_map().contains_key(c)
                            && (c.x < x || (c.x == x && c.z < z + 1)) by {
                        if fresh {
                            lemma_push_contains(r0, coord, c);
                        }
                        if c.x == x && c.z == z {
                            assert(c == coord);
                        }
                    }
                }
                z = z + 1;
            }
            x = x + 1;
        }
        r
    }

    /// Discards every loaded chunk farther than the eviction radius from the
    /// viewer's chunk, with its derived geometry; returns their coordinates.
    pub fn unload_far_chunks(&mut self, viewer: WorldPos) -> (r: Vec<ChunkCoord>)
        requires
            old(self).wf(),
            viewer.in_world(),
        ensures
            final(self).wf(),
            final(self).load_radius_spec() == old(self).load_radius_spec(),
            final(self).unload_radius_spec() == old(self).unload_radius_spec(),
            final(self).generator() == old(self).generator(),
            forall|c: ChunkCoord|
                #[trigger] final(self).chunk_map().contains_key(c) <==> old(self).chunk_map().contains_key(c) && near(
                    c,
                    chunk_of(viewer),
                    old(self).unload_radius_spec(),
                ),
            forall|c: ChunkCoord| #[trigger]
                final(self).chunk_map().contains_key(c) ==> final(self).chunk_map()[c] == old(self).chunk_map()[c],
            r@.no_duplicates(),
            forall|c: ChunkCoord|
                r@.contains(c) <==> old(self).chunk_map().contains_key(c) && !near(
                    c,
                    chunk_of(viewer),
                    old(self).unload_radius_spec(),
                ),
    {
        let center = ChunkCoord::from_world_pos(viewer);
        let rad = self.unload_radius;
        let mut rest: Vec<Chunk> = Vec::new();
        std::mem::swap(&mut self.chunks, &mut rest);
        let ghost orig = rest@;
        let ghost n = orig.len();
        let mut removed: Vec<ChunkCoord> = Vec::new();
        assert(self.chunks@ =~= Seq::<Chunk>::empty());
        while rest.len() > 0
            invariant
                coords_unique(orig),
                forall|i: int| 0 <= i < orig.len() ==> (#[trigger] orig[i]).wf(),
                orig == old(self).chunks@,
                n == orig.len(),
                rest@.len() <= n,
                rest@ == orig.subrange(0, rest@.len() as int),
                rad == self.unload_radius,
                self.load_radius == old(self).load_radius,
                self.unload_radius == old(self).unload_radius,
                self.terrain_generator == old(self).terrain_generator,
                0 <= self.load_radius <= self.unload_radius <= MAX_RADIUS,
                (center.x as int, center.z as int) == chunk_of(viewer),
                coords_unique(self.chunks@),
                forall|i: int| 0 <= i < self.chunks@.len() ==> (#[trigger] self.chunks@[i]).wf(),
                forall|c: ChunkCoord|
                    #[trigger] has_coord(self.chunks@, c) <==> coord_in_range(orig, rest@.len() as int, c) && near(
                        c,
                        chunk_of(viewer),
                        rad as int,
                    ),
                forall|c: ChunkCoord| #[trigger]
                    chunk_map_of(self.chunks@).contains_key(c) ==> chunk_map_of(self.chunks@)[c] == chunk_map_of(
                        orig,
                    )[c],
                removed@.no_duplicates(),
                forall|c: ChunkCoord|
                    #[trigger] removed@.contains(c) <==> coord_in_range(orig, rest@.len() as int, c) && !near(
                        c,
                        chunk_of(viewer),
                        rad as int,
                    ),
            decreases rest@.len(),
        {
            let ghost k: int = rest@.len() as int - 1;
            let ghost before = self.chunks@;
            let ghost removed0 = removed@;
            let chunk = rest.pop().unwrap();
            let cc = chunk.coord();
            proof {
                assert(chunk == orig[k]);
                lemma_map_at(orig, k);
                lemma_range_unique(orig, k);
            }
            let keep = chunk_near(cc, center, rad);
            if keep {
                proof {
                    lemma_map_push(before, chunk);
                }
                self.chunks.push(chunk);
            } else {
                removed.push(cc);
            }
            proof {
                assert forall|c: ChunkCoord|
                    #[trigger] has_coord(self.chunks@, c) <==> coord_in_range(orig, k, c) && near(
                        c,
                        chunk_of(viewer),
                        rad as int,
                    ) by {
                    lemma_range_step(orig, k, c);
                    if keep {
                        lemma_has_coord_push(before, chunk, c);
                    }
                }
                assert forall|c: ChunkCoord|
                    #[trigger] removed@.contains(c) <==> coord_in_range(orig, k, c) && !near(
                        c,
                        chunk_of(viewer),
                        rad as int,
                    ) by {
                    lemma_range_step(orig, k, c);
                    if !keep {
                        lemma_push_contains(removed0, cc, c);
                    }
                }
                if !keep {
                    assert(!removed0.contains(cc));
                    lemma_push_no_duplicates(removed0, cc);
                }
                assert forall|i: int| 0 <= i < self.chunks@.len() implies (#[trigger] self.chunks@[i]).wf() by {
                    if i < before.len() {
                        assert(self.chunks@[i] == before[i]);
                    }
                }
            }
        }
        proof {
            assert forall|c: ChunkCoord|
                #[trigger] self.chunk_map().contains_key(c) <==> old(self).chunk_map().contains_key(c) && near(
                    c,
                    chunk_of(viewer),
                    old(self).unload_radius_spec(),
                ) by {
                lemma_range_all(orig, c);
            }
            assert forall|c: ChunkCoord|
                removed@.contains(c) <==> old(self).chunk_map().contains_key(c) && !near(
                    c,
                    chunk_of(viewer),
                    old(self).unload_radius_spec(),
                ) by {
                lemma_range_all(orig, c);
            }
        }
        removed
    }

    /// The chunks whose derived geometry must be rebuilt, each once.
    pub fn stale_chunks(&self) -> (r: Vec<ChunkCoord>)
        requires
            self.wf(),
        ensures
            r@.no_duplicates(),
            forall|c: ChunkCoord|
                r@.contains(c) <==> self.chunk_map().contains_key(c) && self.chunk_map()[c].stale_spec(),
    {
        let mut r: Vec<ChunkCoord> = Vec::new();
        let mut i: usize = 0;
        while i < self.chunks.len()
            invariant
                i <= self.chunks@.len(),
                self.wf(),
                r@.no_duplicates(),
                forall|c: ChunkCoord|
                    #[trigger] r@.contains(c) <==> exists|k: int|
                        0 <= k < i && #[trigger] self.chunks@[k].coord_spec() == c && self.chunks@[k].stale_spec(),
            decreases self.chunks@.len() - i,
        {
            let ghost r0 = r@;
            let stale = self.chunks[i].is_stale();
            let cc = self.chunks[i].coord();
            if stale {
                proof {
                    if r0.contains(cc) {
                        let k = choose|k: int|
                            0 <= k < i && #[trigger] self.chunks@[k].coord_spec() == cc && self.chunks@[k].stale_spec();
                        assert(self.chunks@[k].coord_spec() == self.chunks@[i as int].coord_spec());
                    }
                    lemma_push_no_duplicates(r0, cc);
                }
                r.push(cc);
            }
            proof {
                assert forall|c: ChunkCoord|
                    #[trigger] r@.contains(c) <==> exists|k: int|
                        0 <= k < i + 1 && #[trigger] self.chunks@[k].coord_spec() == c && self.chunks@[k].stale_spec() by {
                    if stale {
                        lemma_push_contains(r0, cc, c);
                    }
                    if exists|k: int|
                        0 <= k < i + 1 && #[trigger] self.chunks@[k].coord_spec() == c && self.chunks@[k].stale_spec() {
                        let k = choose|k: int|
                            0 <= k < i + 1 && #[trigger] self.chunks@[k].coord_spec() == c && self.chunks@[k].stale_spec();
                        if k < i {
                            assert(r0.contains(c));
                        }
                    }
                }
            }
            i = i + 1;
        }
        proof {
            assert forall|c: ChunkCoord|
                r@.contains(c) <==> self.chunk_map().contains_key(c) && self.chunk_map()[c].stale_spec() by {
                if r@.contains(c) {
                    let k = choose|k: int|
                        0 <= k < i && #[trigger] self.chunks@[k].coord_spec() == c && self.chunks@[k].stale_spec();
                    lemma_map_at(self.chunks@, k);
                }
                if self.chunk_map().contains_key(c) && self.chunk_map()[c].stale_spec() {
                    let k = choose|k: int| 0 <= k < self.chunks@.len() && self.chunks@[k].coord_spec() == c;
                    lemma_map_at(self.chunks@, k);
                }
            }
        }
        r
    }

    /// Records that the geometry of the chunk at `coord` has been rebuilt from
    /// its current cells. Returns false, changing nothing, where no chunk is loaded.
    pub fn mark_fresh(&mut self, coord: ChunkCoord) -> (r: bool)
        requires
            old(self).wf(),
        ensures
            final(self).wf(),
            final(self).load_radius_spec() == old(self).load_radius_spec(),
            final(self).unload_radius_spec() == old(self).unload_radius_spec(),
            final(self).generator() == old(self).generator(),
            r == old(self).chunk_map().contains_key(coord),
            !r ==> final(self).chunk_map() == old(self).chunk_map(),
            r ==> same_except(final(self).chunk_map(), old(self).chunk_map(), coord),
            r ==> final(self).chunk_map()[coord].cells() == old(self).chunk_map()[coord].cells(),
            r ==> final(self).chunk_map()[coord].coord_spec() == coord,
            r ==> !final(self).chunk_map()[coord].stale_spec(),
    {
        match self.find(coord) {
            Some(i) => {
                let ghost old_chunks = self.chunks@;
                let chunk = &mut self.chunks[i];
                chunk.set_stale(false);
                proof {
                    lemma_map_at(old_chunks, i as int);
                    lemma_map_update(old_chunks, i as int, self.chunks@[i as int]);
                    assert(chunk_map_of(self.chunks@).dom() =~= chunk_map_of(old_chunks).dom());
                    assert forall|k: int| 0 <= k < self.chunks@.len() implies (#[trigger] self.chunks@[k]).wf() by {
                        if k != i {
                            assert(self.chunks@[k] == old_chunks[k]);
                        }
                    }
                }
                true
            },
            None => false,
        }
    }

    /// The cell at global grid indices, or `None` where its chunk is not
    /// loaded or the indices lie above or below the chunks.
    pub fn get_voxel_at_grid(&self, g: GridPos) -> (r: Option<Voxel>)
        requires
            self.wf(),
            g.in_world(),
        ensures
            r == self.voxel_at_grid(g),
    {
        let cx = floor_div(g.x, CHUNK_VOXELS_SIZE as i64);
        let cz = floor_div(g.z, CHUNK_VOXELS_SIZE as i64);
        proof {
            assert(CHUNK_VOXELS_SIZE == 16);
            vstd::arithmetic::div_mod::lemma_fundamental_div_mod(g.x as int, 16);
            vstd::arithmetic::div_mod::lemma_fundamental_div_mod(g.z as int, 16);
            assert(-100000000 <= cx <= 100000000 && -100000000 <= cz <= 100000000);
        }
        let coord = ChunkCoord::new(cx as i32, cz as i32);
        if g.y < 0 || g.y >= CHUNK_VOXELS_HEIGHT as i64 {
            return None;
        }
        match self.find(coord) {
            Some(i) => {
                let lx = (g.x - cx * CHUNK_VOXELS_SIZE as i64) as usize;
                let lz = (g.z - cz * CHUNK_VOXELS_SIZE as i64) as usize;
                match self.chunks[i].get_voxel(lx, g.y as usize, lz) {
                    Some(v) => Some(*v),
                    None => None,
                }
            },
            None => None,
        }
    }

    /// Writes the cell at global grid indices and marks its chunk's geometry
    /// stale. Returns false, changing nothing, where there is no such cell.
    pub fn set_voxel_at_grid(&mut self, g: GridPos, voxel: Voxel) -> (r: bool)
        requires
            old(self).wf(),
            g.in_world(),
        ensures
            final(self).wf(),
            final(self).load_radius_spec() == old(self).load_radius_spec(),
            final(self).unload_radius_spec() == old(self).unload_radius_spec(),
            final(self).generator() == old(self).generator(),
            r == old(self).voxel_at_grid(g) is Some,
            !r ==> final(self).chunk_map() == old(self).chunk_map(),
            r ==> same_except(final(self).chunk_map(), old(self).chunk_map(), grid_chunk(g)),
            r ==> final(self).chunk_map()[grid_chunk(g)].cells() == old(self).chunk_map()[grid_chunk(
                g,
            )].cells().update(cell_index(grid_local(g.x as int), g.y as int, grid_local(g.z as int)), voxel),
            r ==> final(self).chunk_map()[grid_chunk(g)].stale_spec(),
            r ==> final(self).voxel_at_grid(g) == Some(voxel),
    {
        let cx = floor_div(g.x, CHUNK_VOXELS_SIZE as i64);
        let cz = floor_div(g.z, CHUNK_VOXELS_SIZE as i64);
        proof {
            assert(CHUNK_VOXELS_SIZE == 16);
            vstd::arithmetic::div_mod::lemma_fundamental_div_mod(g.x as int, 16);
            vstd::arithmetic::div_mod::lemma_fundamental_div_mod(g.z as int, 16);
        }
        let coord = ChunkCoord::new(cx as i32, cz as i32);
        if g.y < 0 || g.y >= CHUNK_VOXELS_HEIGHT as i64 {
            return false;
        }
        match self.find(coord) {
            Some(i) => {
                let lx = (g.x - cx * CHUNK_VOXELS_SIZE as i64) as usize;
                let lz = (g.z - cz * CHUNK_VOXELS_SIZE as i64) as usize;
                let ghost old_chunks = self.chunks@;
                let chunk = &mut self.chunks[i];
                chunk.set_voxel(lx, g.y as usize, lz, voxel);
                chunk.set_stale(true);
                proof {
                    lemma_map_at(old_chunks, i as int);
                    lemma_map_update(old_chunks, i as int, self.chunks@[i as int]);
                    assert(chunk_map_of(self.chunks@).dom() =~= chunk_map_of(old_chunks).dom());
                    assert forall|k: int| 0 <= k < self.chunks@.len() implies (#[trigger] self.chunks@[k]).wf() by {
                        if k != i {
                            assert(self.chunks@[k] == old_chunks[k]);
                        }
                    }
                    lemma_cell_index(lx as int, g.y as int, lz as int);
                }
                true
            },
            None => false,
        }
    }

    /// Clears a solid cell to air. Returns false, changing nothing, where the
    /// cell is missing or not solid.
    pub fn break_voxel(&mut self, g: GridPos) -> (r: bool)
        requires
            old(self).wf(),
            g.in_world(),
        ensures
            final(self).wf(),
            r == (old(self).voxel_at_grid(g) matches Some(v) && v.solid()),
            !r ==> final(self).chunk_map() == old(self).chunk_map(),
            r ==> same_except(final(self).chunk_map(), old(self).chunk_map(), grid_chunk(g)),
            r ==> final(self).chunk_map()[grid_chunk(g)].cells() == old(self).chunk_map()[grid_chunk(
                g,
            )].cells().update(cell_index(grid_local(g.x as int), g.y as int, grid_local(g.z as int)), air()),
            r ==> final(self).voxel_at_grid(g) == Some(air()),
            r ==> final(self).chunk_map()[grid_chunk(g)].stale_spec(),
    {
        match self.get_voxel_at_grid(g) {
            Some(v) => {
                if v.is_solid() {
                    self.set_voxel_at_grid(g, Voxel::new(VoxelType::Air))
                } else {
                    false
                }
            },
            None => false,
        }
    }

    /// Puts a cell of `kind` next to `target`, across `face`, where that cell
    /// exists and is not solid. Returns false, changing nothing, otherwise.
    pub fn place_voxel(&mut self, target: GridPos, face: crate::voxel::VoxelFace, kind: VoxelType) -> (r: bool)
        requires
            old(self).wf(),
            abs(target.x as int) < GRID_LIMIT && abs(target.z as int) < GRID_LIMIT,
            i64::MIN < target.y < i64::MAX,
        ensures
            final(self).wf(),
            ({
                let n = crate::voxel::face_normal(face);
                let p = GridPos { x: (target.x + n.0) as i64, y: (target.y + n.1) as i64, z: (target.z + n.2) as i64 };
                &&& r == (old(self).voxel_at_grid(p) matches Some(v) && !v.solid())
                &&& !r ==> final(self).chunk_map() == old(self).chunk_map()
                &&& r ==> same_except(final(self).chunk_map(), old(self).chunk_map(), grid_chunk(p))
                &&& r ==> final(self).chunk_map()[grid_chunk(p)].cells() == old(self).chunk_map()[grid_chunk(
                    p,
                )].cells().update(
                    cell_index(grid_local(p.x as int), p.y as int, grid_local(p.z as int)),
                    Voxel { voxel_type: kind },
                )
                &&& r ==> final(self).voxel_at_grid(p) == Some(Voxel { voxel_type: kind })
                &&& r ==> final(self).chunk_map()[grid_chunk(p)].stale_spec()
            }),
    {
        let (dx, dy, dz) = face.get_offset();
        let p = GridPos::new(target.x + dx as i64, target.y + dy as i64, target.z + dz as i64);
        match self.get_voxel_at_grid(p) {
            Some(v) => {
                if !v.is_solid() {
                    self.set_voxel_at_grid(p, Voxel::new(kind))
                } else {
                    false
                }
            },
            None => false,
        }
    }

    /// The cell at global grid indices, where its chunk is loaded.
    pub open spec fn voxel_at_grid(&self, g: GridPos) -> Option<Voxel> {
        let c = grid_chunk(g);
        if self.chunk_map().contains_key(c) && 0 <= g.y < CHUNK_VOXELS_HEIGHT {
            Some(self.chunk_map()[c].voxel_at(grid_local(g.x as int), g.y as int, grid_local(g.z as int)))
        } else {
            None
        }
    }

    /// The world-space center of the cell at a world position, where
    /// `world_to_voxel` finds one.
    pub fn get_voxel_center_at_world(&self, world_pos: WorldPos) -> (r: Option<WorldPos>)
        requires
            self.wf(),
            world_pos.in_world(),
        ensures
            r is Some <==> self.chunk_map().contains_key(coord_of(world_pos)) && in_height(world_pos),
            r matches Some(q) ==> q.x == chunk_origin(chunk_of(world_pos).0) + cell_center(local_of(world_pos).0)
                && q.y == cell_center(local_of(world_pos).1) && q.z == chunk_origin(chunk_of(world_pos).1)
                + cell_center(local_of(world_pos).2),
    {
        match self.world_to_voxel(world_pos) {
            Some((c, x, y, z)) => {
                let i = self.find(c).unwrap();
                Some(self.chunks[i].voxel_to_world(x, y, z))
            },
            None => None,
        }
    }
}

/// Indices of a cell on the global voxel grid.
#[derive(Clone, Copy, Debug, PartialEq, Eq, Structural)]
pub struct GridPos {
    pub x: i64,
    pub y: i64,
    pub z: i64,
}

impl GridPos {
    pub fn new(x: i64, y: i64, z: i64) -> (r: GridPos)
        ensures
            r.x == x && r.y == y && r.z == z,
    {
        GridPos { x, y, z }
    }

    /// The indices lie in the part of the grid that chunk coordinates address.
    pub open spec fn in_world(self) -> bool {
        abs(self.x as int) <= GRID_LIMIT && abs(self.z as int) <= GRID_LIMIT
    }
}

/// The chunk that holds a grid cell.
pub open spec fn grid_chunk(g: GridPos) -> ChunkCoord {
    ChunkCoord {
        x: (g.x as int / (CHUNK_VOXELS_SIZE as int)) as i32,
        z: (g.z as int / (CHUNK_VOXELS_SIZE as int)) as i32,
    }
}

/// A grid index's offset inside its chunk.
pub open spec fn grid_local(v: int) -> int {
    v % (CHUNK_VOXELS_SIZE as int)
}

impl Default for World {
    fn default() -> (r: World)
        ensures
            r.wf(),
            r.chunk_map() == Map::<ChunkCoord, Chunk>::empty(),
            r.load_radius_spec() == RENDER_DISTANCE,
            r.unload_radius_spec() == UNLOAD_DISTANCE,
    {
        World::new()
    }
}

/// The cell next to local cell (x, y, z) across the face whose normal
/// dominates `normal` (upwards when `normal` is zero), where that cell lies in
/// the same chunk.
pub fn get_placement_position(chunk_coord: ChunkCoord, x: usize, y: usize, z: usize, normal: (i32, i32, i32)) -> (r:
    Option<(ChunkCoord, usize, usize, usize)>)
    ensures
        ({
            let f = match crate::voxel::face_from_normal((normal.0 as int, normal.1 as int, normal.2 as int)) {
                Some(f) => f,
                None => crate::voxel::VoxelFace::PositiveY,
            };
            let n = crate::voxel::face_normal(f);
            let (a, b, c) = (x + n.0, y + n.1, z + n.2);
            &&& in_bounds(a, b, c) ==> r == Some((chunk_coord, a as usize, b as usize, c as usize))
            &&& !in_bounds(a, b, c) ==> r is None
        }),
{
    let face = match crate::voxel::VoxelFace::from_normal(normal) {
        Some(f) => f,
        None => crate::voxel::VoxelFace::PositiveY,
    };
    let (dx, dy, dz) = face.get_offset();
    if x > CHUNK_VOXELS_SIZE || y > CHUNK_VOXELS_HEIGHT || z > CHUNK_VOXELS_SIZE {
        return None;
    }
    let nx: i64 = x as i64 + dx as i64;
    let ny: i64 = y as i64 + dy as i64;
    let nz: i64 = z as i64 + dz as i64;
    if nx >= 0 && nx < CHUNK_VOXELS_SIZE as i64 && ny >= 0 && ny < CHUNK_VOXELS_HEIGHT as i64 && nz >= 0 && nz
        < CHUNK_VOXELS_SIZE as i64 {
        Some((chunk_coord, nx as usize, ny as usize, nz as usize))
    } else {
        None
    }
}

/// Whether `c` lies within Chebyshev distance `r` of `center`.
fn chunk_near(c: ChunkCoord, center: ChunkCoord, r: i32) -> (b: bool)
    ensures
        b == near(c, (center.x as int, center.z as int), r as int),
{
    let dx: i64 = c.x as i64 - center.x as i64;
    let dz: i64 = c.z as i64 - center.z as i64;
    let ax: i64 = if dx < 0 { -dx } else { dx };
    let az: i64 = if dz < 0 { -dz } else { dz };
    ax <= r as i64 && az <= r as i64
}

/// The two maps have the same keys and agree on every key but `c`.
pub open spec fn same_except(a: Map<ChunkCoord, Chunk>, b: Map<ChunkCoord, Chunk>, c: ChunkCoord) -> bool {
    &&& a.dom() == b.dom()
    &&& forall|k: ChunkCoord| #[trigger] a.contains_key(k) && k != c ==> a[k] == b[k]
}

/// A position lies in its chunk: its offset from the chunk's origin is less than
/// a chunk's width, and names a cell inside the chunk.
pub proof fn lemma_local_in_chunk(v: int)
    ensures
        0 <= v - chunk_origin(chunk_x_of(v)) < CHUNK_WORLD_SIZE,
        0 <= (v - chunk_origin(chunk_x_of(v))) / (VOXEL_SIZE as int) < CHUNK_VOXELS_SIZE,
{
    vstd::arithmetic::div_mod::lemma_fundamental_div_mod(v, CHUNK_WORLD_SIZE as int);
    let q = chunk_x_of(v);
    assert(v - chunk_origin(q) == v % (CHUNK_WORLD_SIZE as int)) by (nonlinear_arith)
        requires
            v == 16000 * q + v % 16000,
            chunk_origin(q) == q * 16000,
    ;
}

/// Re-applying the chunk transform to the origin of the chunk it gives yields
/// that chunk again, and every position lies between its chunk's origin and the
/// next chunk's: the transform floors, for negative coordinates too.
pub proof fn lemma_chunk_of_idempotent(v: int)
    ensures
        chunk_x_of(chunk_origin(chunk_x_of(v))) == chunk_x_of(v),
        chunk_origin(chunk_x_of(v)) <= v < chunk_origin(chunk_x_of(v)) + CHUNK_WORLD_SIZE,
{
    lemma_local_in_chunk(v);
    lemma_chunk_origin(chunk_x_of(v));
}

/// A chunk's origin lies in that chunk.
pub proof fn lemma_chunk_origin(c: int)
    ensures
        chunk_x_of(chunk_origin(c)) == c,
{
    lemma_fundamental_div_mod_converse(chunk_origin(c), CHUNK_WORLD_SIZE as int, c, 0);
}

proof fn lemma_axis_round_trip(v: int)
    ensures
        ({
            let c = chunk_x_of(v);
            let l = (v - chunk_origin(c)) / (VOXEL_SIZE as int);
            let q = chunk_origin(c) + cell_center(l);
            &&& -(VOXEL_SIZE / 2) < q - v <= VOXEL_SIZE / 2
            &&& chunk_x_of(q) == c
            &&& (q - chunk_origin(c)) / (VOXEL_SIZE as int) == l
        }),
{
    let c = chunk_x_of(v);
    lemma_local_in_chunk(v);
    let off = v - chunk_origin(c);
    let l = off / 1000;
    vstd::arithmetic::div_mod::lemma_fundamental_div_mod(off, 1000);
    let q = chunk_origin(c) + cell_center(l);
    assert(0 <= l < 16);
    assert(q - chunk_origin(c) == l * 1000 + 500);
    lemma_fundamental_div_mod_converse(q - chunk_origin(c), 1000, l, 500);
    assert(chunk_origin(c) == c * 16000);
    lemma_fundamental_div_mod_converse(q, 16000, c, l * 1000 + 500);
}

proof fn lemma_height_round_trip(v: int)
    requires
        0 <= v,
    ensures
        ({
            let l = v / (VOXEL_SIZE as int);
            let q = cell_center(l);
            &&& -(VOXEL_SIZE / 2) < q - v <= VOXEL_SIZE / 2
            &&& q / (VOXEL_SIZE as int) == l
            &&& 0 <= q
            &&& v < CHUNK_VOXELS_HEIGHT * VOXEL_SIZE ==> q < CHUNK_VOXELS_HEIGHT * VOXEL_SIZE
        }),
{
    let l = v / 1000;
    vstd::arithmetic::div_mod::lemma_fundamental_div_mod(v, 1000);
    lemma_fundamental_div_mod_converse(cell_center(l), 1000, l, 500);
}

/// The center of the cell that `world_to_voxel` finds for `p` lies within
/// half a voxel of `p` on every axis, and resolves to that same cell.
pub proof fn lemma_voxel_round_trip(p: WorldPos)
    requires
        p.in_world(),
        in_height(p),
    ensures
        ({
            let c = chunk_of(p);
            let l = local_of(p);
            let q = WorldPos {
                x: (chunk_origin(c.0) + cell_center(l.0)) as i64,
                y: cell_center(l.1) as i64,
                z: (chunk_origin(c.1) + cell_center(l.2)) as i64,
            };
            &&& -(VOXEL_SIZE / 2) < q.x - p.x <= VOXEL_SIZE / 2
            &&& -(VOXEL_SIZE / 2) < q.y - p.y <= VOXEL_SIZE / 2
            &&& -(VOXEL_SIZE / 2) < q.z - p.z <= VOXEL_SIZE / 2
            &&& in_height(q)
            &&& coord_of(q) == coord_of(p)
            &&& local_of(q) == l
        }),
{
    lemma_axis_round_trip(p.x as int);
    lemma_axis_round_trip(p.z as int);
    lemma_height_round_trip(p.y as int);
}

/// One streaming tick evicts every loaded chunk beyond the eviction radius and
/// then loads every missing coordinate within the load radius. Afterwards the
/// whole load square is loaded, nothing beyond the eviction radius remains, and
/// starting from an empty index exactly the load square is loaded.
pub proof fn lemma_streaming_tick(before: Set<ChunkCoord>, center: (int, int), r: int, r2: int)
    requires
        0 <= r <= r2,
    ensures
        ({
            let kept = before.filter(|c: ChunkCoord| near(c, center, r2));
            let loads = square(center, r).difference(kept);
            let after = kept.union(loads);
            &&& square(center, r).subset_of(after)
            &&& forall|c: ChunkCoord| #[trigger] after.contains(c) ==> near(c, center, r2)
            &&& before.is_empty() ==> after == square(center, r)
        }),
{
    let kept = before.filter(|c: ChunkCoord| near(c, center, r2));
    let loads = square(center, r).difference(kept);
    let after = kept.union(loads);
    if before.is_empty() {
        assert(kept =~= Set::<ChunkCoord>::empty());
        assert(after =~= square(center, r));
    }
}

} // verus!
