use gecynd::raycast::INSIDE_FACE;
use gecynd::terrain::TerrainSamples;
use gecynd::voxel::{Voxel, VoxelFace, VoxelType, WorldPos};
use gecynd::world::{ChunkCoord, GridPos, World, CHUNK_VOLUME, CHUNK_VOXELS_SIZE};

fn air_world() -> World {
    let mut w = World::new();
    let s = TerrainSamples { heights: vec![i32::MIN; CHUNK_VOXELS_SIZE * CHUNK_VOXELS_SIZE], caves: vec![0; CHUNK_VOLUME] };
    assert!(w.load_chunk(ChunkCoord::new(0, 0), &s));
    w
}

#[test]
fn ray_hits_single_cell_on_facing_side() {
    let mut w = air_world();
    assert!(w.set_voxel_at_grid(GridPos::new(5, 5, 5), Voxel::new(VoxelType::Stone)));
    let hit = w.cast_ray(WorldPos::new(5500, 5500, 20000), WorldPos::new(0, 0, -1000), 20000);
    assert_eq!(hit, Some((GridPos::new(5, 5, 5), VoxelFace::PositiveZ)));
    assert_eq!(hit.unwrap().1.get_normal(), (0, 0, 1));
}

#[test]
fn ray_too_short_misses() {
    let mut w = air_world();
    assert!(w.set_voxel_at_grid(GridPos::new(5, 5, 5), Voxel::new(VoxelType::Stone)));
    assert_eq!(w.cast_ray(WorldPos::new(5500, 5500, 20000), WorldPos::new(0, 0, -1000), 10000), None);
}

#[test]
fn ray_starting_inside_solid_returns_origin_cell() {
    let mut w = air_world();
    assert!(w.set_voxel_at_grid(GridPos::new(2, 3, 4), Voxel::new(VoxelType::Dirt)));
    let hit = w.cast_ray(WorldPos::new(2100, 3900, 4500), WorldPos::new(1000, 0, 0), 5000);
    assert_eq!(hit, Some((GridPos::new(2, 3, 4), INSIDE_FACE)));
}

#[test]
fn zero_direction_finds_nothing() {
    let w = air_world();
    assert_eq!(w.cast_ray(WorldPos::new(2100, 3900, 4500), WorldPos::new(0, 0, 0), 5000), None);
}

#[test]
fn diagonal_ray_does_not_tunnel_through_thin_wall() {
    let mut w = air_world();
    // A one-cell-thick wall at x = 8, crossed at a shallow angle.
    for y in 0..16 {
        for z in 0..16 {
            assert!(w.set_voxel_at_grid(GridPos::new(8, y, z), Voxel::new(VoxelType::Stone)));
        }
    }
    let hit = w.cast_ray(WorldPos::new(1500, 2500, 1500), WorldPos::new(997, 13, 71), 20000);
    let (g, face) = hit.unwrap();
    assert_eq!(g.x, 8);
    assert_eq!(face, VoxelFace::NegativeX);
}

#[test]
fn ray_enters_from_below_and_side() {
    let mut w = air_world();
    assert!(w.set_voxel_at_grid(GridPos::new(3, 10, 3), Voxel::new(VoxelType::Stone)));
    let up = w.cast_ray(WorldPos::new(3500, 1500, 3500), WorldPos::new(0, 1000, 0), 20000);
    assert_eq!(up, Some((GridPos::new(3, 10, 3), VoxelFace::NegativeY)));
    assert!(w.set_voxel_at_grid(GridPos::new(0, 1, 0), Voxel::new(VoxelType::Stone)));
    let left = w.cast_ray(WorldPos::new(4500, 1500, 500), WorldPos::new(-1000, 0, 0), 20000);
    assert_eq!(left, Some((GridPos::new(0, 1, 0), VoxelFace::PositiveX)));
    // Leaving the loaded chunk finds nothing.
    let out = w.cast_ray(WorldPos::new(4500, 1500, 500), WorldPos::new(0, 0, -1000), 20000);
    assert_eq!(out, None);
}

#[test]
fn caller_chooses_face_for_origin_inside_solid() {
    let mut w = air_world();
    assert!(w.set_voxel_at_grid(GridPos::new(2, 3, 4), Voxel::new(VoxelType::Dirt)));
    let hit = w.cast_ray_with_inside_face(WorldPos::new(2100, 3900, 4500), WorldPos::new(1000, 0, 0), 5000, VoxelFace::PositiveX);
    assert_eq!(hit, Some((GridPos::new(2, 3, 4), VoxelFace::PositiveX)));
    // Outside a solid cell the caller's choice plays no part.
    let hit = w.cast_ray_with_inside_face(WorldPos::new(500, 3500, 4500), WorldPos::new(1000, 0, 0), 5000, VoxelFace::PositiveX);
    assert_eq!(hit, Some((GridPos::new(2, 3, 4), VoxelFace::NegativeX)));
}
