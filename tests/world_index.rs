use gecynd::mesh::rebuild_chunk_geometry;
use gecynd::terrain::TerrainSamples;
use gecynd::voxel::{Voxel, VoxelFace, VoxelType, WorldPos};
use gecynd::world::{ChunkCoord, GridPos, World, CHUNK_VOLUME, CHUNK_VOXELS_SIZE};

fn air_samples() -> TerrainSamples {
    TerrainSamples { heights: vec![i32::MIN; CHUNK_VOXELS_SIZE * CHUNK_VOXELS_SIZE], caves: vec![0; CHUNK_VOLUME] }
}

fn world_with(coords: &[(i32, i32)]) -> World {
    let mut w = World::new();
    for &(x, z) in coords {
        assert!(w.load_chunk(ChunkCoord::new(x, z), &air_samples()));
    }
    w
}

fn sorted(mut v: Vec<ChunkCoord>) -> Vec<(i32, i32)> {
    let mut r: Vec<(i32, i32)> = v.drain(..).map(|c| (c.x, c.z)).collect();
    r.sort();
    r
}

#[test]
fn world_to_voxel_resolves_loaded_positions() {
    let w = world_with(&[(0, 0), (-1, 0)]);
    assert_eq!(w.world_to_voxel(WorldPos::new(5500, 7200, 15999)), Some((ChunkCoord::new(0, 0), 5, 7, 15)));
    assert_eq!(w.world_to_voxel(WorldPos::new(-500, 0, 0)), Some((ChunkCoord::new(-1, 0), 15, 0, 0)));
    assert_eq!(w.world_to_voxel(WorldPos::new(-16000, 255999, 1)), Some((ChunkCoord::new(-1, 0), 0, 255, 0)));
}

#[test]
fn world_to_voxel_rejects_unloaded_and_out_of_height() {
    let w = world_with(&[(0, 0)]);
    assert_eq!(w.world_to_voxel(WorldPos::new(16000, 0, 0)), None);
    assert_eq!(w.world_to_voxel(WorldPos::new(0, 0, -1)), None);
    assert_eq!(w.world_to_voxel(WorldPos::new(0, -1, 0)), None);
    assert_eq!(w.world_to_voxel(WorldPos::new(0, 256000, 0)), None);
}

#[test]
fn voxel_center_round_trip() {
    let w = world_with(&[(0, 0), (-1, -1)]);
    for p in [
        WorldPos::new(5500, 7200, 15999),
        WorldPos::new(-1, 0, -1),
        WorldPos::new(-15999, 255999, -8000),
        WorldPos::new(0, 0, 0),
    ] {
        let center = w.get_voxel_center_at_world(p).unwrap();
        assert!((center.x - p.x).abs() <= 500 && (center.y - p.y).abs() <= 500 && (center.z - p.z).abs() <= 500);
        assert_eq!(w.world_to_voxel(center), w.world_to_voxel(p));
        let (c, x, y, z) = w.world_to_voxel(p).unwrap();
        assert_eq!(w.get_chunk(c).unwrap().voxel_to_world(x, y, z), center);
    }
    assert_eq!(w.get_voxel_center_at_world(WorldPos::new(5500, 7200, 15999)), Some(WorldPos::new(5500, 7500, 15500)));
    assert_eq!(w.get_voxel_center_at_world(WorldPos::new(16000, 0, 0)), None);
}

#[test]
fn set_voxel_at_world_writes_and_marks_stale() {
    let mut w = world_with(&[(0, 0)]);
    assert!(rebuild_chunk_geometry(&mut w, ChunkCoord::new(0, 0)).is_some());
    assert!(w.stale_chunks().is_empty());
    let p = WorldPos::new(1500, 2500, 3500);
    assert!(w.set_voxel_at_world(p, Voxel::new(VoxelType::Dirt)));
    assert_eq!(w.get_voxel_at_world(p), Some(Voxel::new(VoxelType::Dirt)));
    assert_eq!(w.get_voxel_at_grid(GridPos::new(1, 2, 3)), Some(Voxel::new(VoxelType::Dirt)));
    assert_eq!(sorted(w.stale_chunks()), vec![(0, 0)]);
    let g = rebuild_chunk_geometry(&mut w, ChunkCoord::new(0, 0)).unwrap();
    assert_eq!(g.mesh.unwrap().positions.len(), 24);
    assert_eq!(g.collider.unwrap().triangles.len(), 12);
    assert!(w.stale_chunks().is_empty());
}

#[test]
fn set_voxel_at_world_without_chunk_fails_and_changes_nothing() {
    let mut w = World::new();
    assert!(!w.set_voxel_at_world(WorldPos::new(1500, 2500, 3500), Voxel::new(VoxelType::Stone)));
    assert!(w.loaded_coords().is_empty());
    assert!(w.stale_chunks().is_empty());

    let mut w = world_with(&[(0, 0)]);
    assert!(rebuild_chunk_geometry(&mut w, ChunkCoord::new(0, 0)).is_some());
    assert!(!w.set_voxel_at_world(WorldPos::new(16500, 2500, 3500), Voxel::new(VoxelType::Stone)));
    assert!(!w.set_voxel_at_world(WorldPos::new(500, -2500, 3500), Voxel::new(VoxelType::Stone)));
    assert_eq!(sorted(w.loaded_coords()), vec![(0, 0)]);
    assert!(w.stale_chunks().is_empty());
    assert!(w.get_voxel_at_world(WorldPos::new(16500, 2500, 3500)).is_none());
}

#[test]
fn rebuild_of_unloaded_chunk_is_none() {
    let mut w = World::new();
    assert!(rebuild_chunk_geometry(&mut w, ChunkCoord::new(0, 0)).is_none());
}

#[test]
fn load_chunk_twice_keeps_one() {
    let mut w = World::new();
    assert!(w.load_chunk(ChunkCoord::new(3, 4), &air_samples()));
    assert!(!w.load_chunk(ChunkCoord::new(3, 4), &air_samples()));
    assert_eq!(sorted(w.loaded_coords()), vec![(3, 4)]);
    assert!(w.is_loaded(ChunkCoord::new(3, 4)));
    assert!(!w.is_loaded(ChunkCoord::new(4, 3)));
}

#[test]
fn streaming_loads_square_then_follows_viewer() {
    let mut w = World::with_radii(1, 3);
    let viewer = WorldPos::new(500, 80000, 500);
    assert!(w.unload_far_chunks(viewer).is_empty());
    let to_load = w.chunks_to_load(viewer);
    assert_eq!(
        sorted(to_load.clone()),
        vec![(-1, -1), (-1, 0), (-1, 1), (0, -1), (0, 0), (0, 1), (1, -1), (1, 0), (1, 1)]
    );
    for c in to_load {
        assert!(w.load_chunk(c, &air_samples()));
    }
    assert_eq!(
        sorted(w.loaded_coords()),
        vec![(-1, -1), (-1, 0), (-1, 1), (0, -1), (0, 0), (0, 1), (1, -1), (1, 0), (1, 1)]
    );
    assert!(w.chunks_to_load(viewer).is_empty());

    let viewer = WorldPos::new(5 * 16000 + 500, 80000, 500);
    let evicted = w.unload_far_chunks(viewer);
    assert_eq!(
        sorted(evicted),
        vec![(-1, -1), (-1, 0), (-1, 1), (0, -1), (0, 0), (0, 1), (1, -1), (1, 0), (1, 1)]
    );
    for c in w.chunks_to_load(viewer) {
        assert!(w.load_chunk(c, &air_samples()));
    }
    assert_eq!(
        sorted(w.loaded_coords()),
        vec![(4, -1), (4, 0), (4, 1), (5, -1), (5, 0), (5, 1), (6, -1), (6, 0), (6, 1)]
    );
}

#[test]
fn eviction_keeps_chunks_inside_the_band() {
    let mut w = World::with_radii(1, 3);
    for x in -1..=1 {
        assert!(w.load_chunk(ChunkCoord::new(x, 0), &air_samples()));
    }
    // Viewer at chunk 3: chunks 0..1 are within 3, chunk -1 is 4 away.
    let evicted = w.unload_far_chunks(WorldPos::new(3 * 16000, 0, 0));
    assert_eq!(sorted(evicted), vec![(-1, 0)]);
    assert_eq!(sorted(w.loaded_coords()), vec![(0, 0), (1, 0)]);
}

#[test]
fn break_and_place_cells() {
    let mut w = world_with(&[(0, 0), (1, 0)]);
    let g = GridPos::new(15, 10, 4);
    assert!(!w.break_voxel(g));
    assert!(w.set_voxel_at_grid(g, Voxel::new(VoxelType::Stone)));
    // Placing across +X lands in the next chunk.
    assert!(w.place_voxel(g, VoxelFace::PositiveX, VoxelType::Dirt));
    assert_eq!(w.get_voxel_at_grid(GridPos::new(16, 10, 4)), Some(Voxel::new(VoxelType::Dirt)));
    assert_eq!(w.get_chunk(ChunkCoord::new(1, 0)).unwrap().get_voxel(0, 10, 4), Some(&Voxel::new(VoxelType::Dirt)));
    // The target cell is now solid, so placing there again fails.
    assert!(!w.place_voxel(g, VoxelFace::PositiveX, VoxelType::Stone));
    assert!(w.break_voxel(g));
    assert_eq!(w.get_voxel_at_grid(g), Some(Voxel::new(VoxelType::Air)));
    // No chunk at -1: nothing to place into.
    assert!(!w.place_voxel(GridPos::new(0, 10, 4), VoxelFace::NegativeX, VoxelType::Stone));
    assert_eq!(w.get_voxel_at_grid(GridPos::new(-1, 10, 4)), None);
}

#[test]
fn break_and_place_leave_other_cells_alone() {
    let mut w = world_with(&[(0, 0)]);
    for y in 0..4 {
        assert!(w.set_voxel_at_grid(GridPos::new(5, y, 5), Voxel::new(VoxelType::Stone)));
    }
    assert!(w.break_voxel(GridPos::new(5, 2, 5)));
    for (y, t) in [(0, VoxelType::Stone), (1, VoxelType::Stone), (2, VoxelType::Air), (3, VoxelType::Stone)] {
        assert_eq!(w.get_voxel_at_grid(GridPos::new(5, y, 5)), Some(Voxel::new(t)));
    }
    assert!(w.place_voxel(GridPos::new(5, 3, 5), VoxelFace::PositiveY, VoxelType::Grass));
    for (y, t) in [(1, VoxelType::Stone), (2, VoxelType::Air), (3, VoxelType::Stone), (4, VoxelType::Grass), (5, VoxelType::Air)] {
        assert_eq!(w.get_voxel_at_grid(GridPos::new(5, y, 5)), Some(Voxel::new(t)));
    }
    assert_eq!(w.get_voxel_at_grid(GridPos::new(4, 4, 5)), Some(Voxel::new(VoxelType::Air)));
}
