//! Deterministic terrain fill of a chunk from coherent-noise samples.
//!
//! Noise values are fixed-point numbers with `NOISE_ONE` standing for 1.0; the
//! noise field itself is sampled by the caller at the points that this module
//! names, so a chunk's terrain is a function of those samples alone.
use vstd::prelude::*;

use crate::voxel::{Voxel, VoxelType, VOXEL_SIZE};
use crate::world::{
    Chunk, ChunkCoord, CHUNK_VOLUME, CHUNK_VOXELS_HEIGHT, CHUNK_VOXELS_SIZE, CHUNK_WORLD_SIZE,
    cell_index, cell_of, chunk_origin, in_bounds, lemma_cell_of,
};

verus! {

/// Seed of the noise field that gives the surface height.
pub const HEIGHT_SEED: u32 = 12345;

/// Seed of the noise field that carves caves; independent of `HEIGHT_SEED`.
pub const CAVE_SEED: u32 = 54321;

/// Fixed-point value of 1.0 for noise inputs and outputs.
pub const NOISE_ONE: i64 = 1000000;

/// Noise units per world fixed-point unit (`NOISE_ONE / UNITS_PER_WORLD`).
pub const NOISE_PER_UNIT: i64 = 1000;

/// Height-noise input per world fixed-point unit: a frequency of 0.01 per world unit.
pub const HEIGHT_FREQUENCY: i64 = 10;

/// Cave-noise input per world fixed-point unit: a frequency of 0.02 per world unit.
pub const CAVE_FREQUENCY: i64 = 20;

/// Surface height, in world units, where the height noise is -1.
pub const HEIGHT_BASE: i64 = 32;

/// Rise of the surface, in world units, per unit of height noise.
pub const HEIGHT_SPAN: i64 = 32;

/// Depth, in world units, of the soil layer under the surface.
pub const DIRT_DEPTH: i64 = 3;

/// Cave noise above this value carves air below the soil.
pub const CAVE_THRESHOLD: i64 = 300000;

/// Noise samples for one chunk: one height sample per column, at index
/// `x * CHUNK_VOXELS_SIZE + z`, and one cave sample per cell, at its position in
/// the chunk's array.
pub struct TerrainSamples {
    pub heights: Vec<i32>,
    pub caves: Vec<i32>,
}

impl TerrainSamples {
    pub open spec fn wf(&self) -> bool {
        self.heights@.len() == CHUNK_VOXELS_SIZE * CHUNK_VOXELS_SIZE
            && self.caves@.len() == CHUNK_VOLUME
    }

    /// Whether there is a sample for every column and every cell.
    pub fn is_complete(&self) -> (r: bool)
        ensures
            r == self.wf(),
    {
        self.heights.len() == CHUNK_VOXELS_SIZE * CHUNK_VOXELS_SIZE && self.caves.len() == CHUNK_VOLUME
    }

    pub open spec fn height_at(&self, x: int, z: int) -> int {
        self.heights@[x * CHUNK_VOXELS_SIZE + z] as int
    }

    pub open spec fn cave_at(&self, x: int, y: int, z: int) -> int {
        self.caves@[cell_index(x, y, z)] as int
    }
}

/// Surface height, as a fixed-point world height, for a height-noise value.
pub open spec fn surface_height(h: int) -> int {
    HEIGHT_BASE * NOISE_ONE + (h + NOISE_ONE) * HEIGHT_SPAN
}

/// The material of the cell at vertical index `y` in a column whose height
/// noise is `h`, where the cave noise at the cell is `cave`.
pub open spec fn terrain_type(y: int, h: int, cave: int) -> VoxelType {
    let wy = y * VOXEL_SIZE * NOISE_PER_UNIT;
    let top = surface_height(h);
    if wy > top {
        VoxelType::Air
    } else if wy > top - DIRT_DEPTH * NOISE_ONE {
        if wy == (top / (NOISE_ONE as int)) * NOISE_ONE {
            VoxelType::Grass
        } else {
            VoxelType::Dirt
        }
    } else if cave > CAVE_THRESHOLD {
        VoxelType::Air
    } else {
        VoxelType::Stone
    }
}

/// The cells that terrain generation gives a chunk for these samples.
pub open spec fn terrain_cells(s: &TerrainSamples) -> Seq<Voxel> {
    Seq::new(
        CHUNK_VOLUME as nat,
        |i: int|
            {
                let (x, y, z) = cell_of(i);
                Voxel { voxel_type: terrain_type(y, s.height_at(x, z), s.cave_at(x, y, z)) }
            },
    )
}

/// Fixed-point world coordinate of the minimum corner of local cell `i` along
/// a horizontal axis of the chunk at `c`.
pub open spec fn column_world(c: int, i: int) -> int {
    chunk_origin(c) + i * VOXEL_SIZE
}

/// Picks the material of one cell.
pub fn classify(y: usize, height_sample: i32, cave_sample: i32) -> (r: VoxelType)
    requires
        y < CHUNK_VOXELS_HEIGHT,
    ensures
        r == terrain_type(y as int, height_sample as int, cave_sample as int),
{
    let wy: i64 = y as i64 * VOXEL_SIZE * NOISE_PER_UNIT;
    let top: i64 = HEIGHT_BASE * NOISE_ONE + (height_sample as i64 + NOISE_ONE) * HEIGHT_SPAN;
    if wy > top {
        VoxelType::Air
    } else if wy > top - DIRT_DEPTH * NOISE_ONE {
        let floor_top = crate::world::floor_div(top, NOISE_ONE) * NOISE_ONE;
        if wy == floor_top {
            VoxelType::Grass
        } else {
            VoxelType::Dirt
        }
    } else if cave_sample as i64 > CAVE_THRESHOLD {
        VoxelType::Air
    } else {
        VoxelType::Stone
    }
}

/// The terrain generator's configuration: the seeds of its two noise fields.
pub struct TerrainGenerator {
    pub height_seed: u32,
    pub cave_seed: u32,
}

impl TerrainGenerator {
    pub fn new() -> (r: TerrainGenerator)
        ensures
            r.height_seed == HEIGHT_SEED && r.cave_seed == CAVE_SEED,
    {
        TerrainGenerator { height_seed: HEIGHT_SEED, cave_seed: CAVE_SEED }
    }

    /// The height-noise input, fixed-point, for column (x, z) of the chunk at `coord`.
    pub fn height_sample_point(&self, coord: ChunkCoord, x: usize, z: usize) -> (r: (i64, i64))
        requires
            x < CHUNK_VOXELS_SIZE && z < CHUNK_VOXELS_SIZE,
        ensures
            r.0 == column_world(coord.x as int, x as int) * HEIGHT_FREQUENCY,
            r.1 == column_world(coord.z as int, z as int) * HEIGHT_FREQUENCY,
    {
        let wx = coord.x as i64 * CHUNK_WORLD_SIZE + x as i64 * VOXEL_SIZE;
        let wz = coord.z as i64 * CHUNK_WORLD_SIZE + z as i64 * VOXEL_SIZE;
        (wx * HEIGHT_FREQUENCY, wz * HEIGHT_FREQUENCY)
    }

    /// The cave-noise input, fixed-point, for cell (x, y, z) of the chunk at `coord`.
    pub fn cave_sample_point(&self, coord: ChunkCoord, x: usize, y: usize, z: usize) -> (r: (i64, i64, i64))
        requires
            in_bounds(x as int, y as int, z as int),
        ensures
            r.0 == column_world(coord.x as int, x as int) * CAVE_FREQUENCY,
            r.1 == y * VOXEL_SIZE * CAVE_FREQUENCY,
            r.2 == column_world(coord.z as int, z as int) * CAVE_FREQUENCY,
    {
        let wx = coord.x as i64 * CHUNK_WORLD_SIZE + x as i64 * VOXEL_SIZE;
        let wz = coord.z as i64 * CHUNK_WORLD_SIZE + z as i64 * VOXEL_SIZE;
        (wx * CAVE_FREQUENCY, y as i64 * VOXEL_SIZE * CAVE_FREQUENCY, wz * CAVE_FREQUENCY)
    }

    /// Fills every cell of `chunk` from the samples: air above the surface, a
    /// grass cell at the surface's whole height, soil in the layers below it, and
    /// stone further down unless the cave noise carves air there.
    pub fn generate_chunk(&self, chunk: &mut Chunk, samples: &TerrainSamples)
        requires
            old(chunk).wf(),
            samples.wf(),
        ensures
            final(chunk).wf(),
            final(chunk).coord_spec() == old(chunk).coord_spec(),
            final(chunk).stale_spec() == old(chunk).stale_spec(),
            final(chunk).cells() == terrain_cells(samples),
    {
        let mut i: usize = 0;
        while i < CHUNK_VOLUME
            invariant
                i <= CHUNK_VOLUME,
                samples.wf(),
                chunk.wf(),
                chunk.coord_spec() == old(chunk).coord_spec(),
                chunk.stale_spec() == old(chunk).stale_spec(),
                forall|k: int| 0 <= k < i ==> chunk.cells()[k] == #[trigger] terrain_cells(samples)[k],
            decreases CHUNK_VOLUME - i,
        {
            let col = i / CHUNK_VOXELS_SIZE;
            let x = col / CHUNK_VOXELS_HEIGHT;
            let y = col % CHUNK_VOXELS_HEIGHT;
            let z = i % CHUNK_VOXELS_SIZE;
            proof {
                lemma_cell_of(i as int);
                assert(cell_of(i as int) == (x as int, y as int, z as int));
                assert(0 <= x * CHUNK_VOXELS_SIZE + z < CHUNK_VOXELS_SIZE * CHUNK_VOXELS_SIZE) by (nonlinear_arith)
                    requires
                        x < 16,
                        z < 16,
                ;
            }
            let kind = classify(y, samples.heights[x * CHUNK_VOXELS_SIZE + z], samples.caves[i]);
            chunk.set_voxel(x, y, z, Voxel::new(kind));
            i = i + 1;
        }
        assert(chunk.cells() =~= terrain_cells(samples));
    }
}

/// Terrain is deterministic: the cells that generation gives a chunk are a
/// function of its samples alone, so two fresh chunks generated from the same
/// samples hold identical cell arrays.
pub proof fn lemma_terrain_deterministic(a: &Chunk, b: &Chunk, samples: &TerrainSamples)
    requires
        a.cells() == terrain_cells(samples),
        b.cells() == terrain_cells(samples),
    ensures
        a.cells() == b.cells(),
        forall|x: int, y: int, z: int| in_bounds(x, y, z) ==> #[trigger] a.voxel_at(x, y, z) == b.voxel_at(x, y, z),
{
}

} // verus!
