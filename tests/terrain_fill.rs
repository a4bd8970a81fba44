use gecynd::terrain::{classify, TerrainGenerator, TerrainSamples, CAVE_SEED, HEIGHT_SEED};
use gecynd::voxel::{Voxel, VoxelType};
use gecynd::world::{Chunk, ChunkCoord, CHUNK_VOLUME, CHUNK_VOXELS_HEIGHT, CHUNK_VOXELS_SIZE};

#[test]
fn classify_layers_at_mid_height() {
    // Noise 0 puts the surface at 64 world units.
    assert_eq!(classify(65, 0, 0), VoxelType::Air);
    assert_eq!(classify(64, 0, 0), VoxelType::Grass);
    assert_eq!(classify(63, 0, 0), VoxelType::Dirt);
    assert_eq!(classify(62, 0, 0), VoxelType::Dirt);
    assert_eq!(classify(61, 0, 0), VoxelType::Stone);
    assert_eq!(classify(10, 0, 300000), VoxelType::Stone);
    assert_eq!(classify(10, 0, 300001), VoxelType::Air);
}

#[test]
fn classify_band_edges() {
    // Noise -1 gives height 32, noise 1 gives height 96.
    assert_eq!(classify(32, -1000000, 0), VoxelType::Grass);
    assert_eq!(classify(33, -1000000, 0), VoxelType::Air);
    assert_eq!(classify(96, 1000000, 0), VoxelType::Grass);
    assert_eq!(classify(0, i32::MIN, 0), VoxelType::Air);
    // A fractional surface at 64.5: 64 is grass, 62 is soil, 61 is rock.
    assert_eq!(classify(64, 15625, 0), VoxelType::Grass);
    assert_eq!(classify(62, 15625, 0), VoxelType::Dirt);
    assert_eq!(classify(61, 15625, 0), VoxelType::Stone);
    assert_eq!(classify(65, 15625, 0), VoxelType::Air);
}

#[test]
fn sample_points_scale_world_position() {
    let g = TerrainGenerator::new();
    assert_eq!((g.height_seed, g.cave_seed), (HEIGHT_SEED, CAVE_SEED));
    assert_ne!(HEIGHT_SEED, CAVE_SEED);
    assert_eq!(g.height_sample_point(ChunkCoord::new(1, -1), 2, 3), (180000, -130000));
    assert_eq!(g.cave_sample_point(ChunkCoord::new(1, -1), 2, 7, 3), (360000, 140000, -260000));
}

fn samples(seed: i32) -> TerrainSamples {
    let heights = (0..CHUNK_VOXELS_SIZE * CHUNK_VOXELS_SIZE).map(|i| (i as i32 * 7919 + seed) % 1000000).collect();
    let caves = (0..CHUNK_VOLUME).map(|i| ((i as i32).wrapping_mul(2654435) ^ seed) % 1000000).collect();
    TerrainSamples { heights, caves }
}

#[test]
fn samples_must_cover_the_chunk() {
    assert!(samples(1).is_complete());
    let short = TerrainSamples { heights: vec![0; 255], caves: vec![0; CHUNK_VOLUME] };
    assert!(!short.is_complete());
    let short = TerrainSamples { heights: vec![0; 256], caves: vec![0; CHUNK_VOLUME - 1] };
    assert!(!short.is_complete());
}

#[test]
fn generate_chunk_follows_classify() {
    let g = TerrainGenerator::new();
    let s = samples(17);
    let mut c = Chunk::new(ChunkCoord::new(2, 2));
    g.generate_chunk(&mut c, &s);
    for x in 0..CHUNK_VOXELS_SIZE {
        for z in 0..CHUNK_VOXELS_SIZE {
            for y in 0..CHUNK_VOXELS_HEIGHT {
                let i = (x * CHUNK_VOXELS_HEIGHT + y) * CHUNK_VOXELS_SIZE + z;
                let h = s.heights[x * CHUNK_VOXELS_SIZE + z];
                assert_eq!(c.get_voxel(x, y, z), Some(&Voxel::new(classify(y, h, s.caves[i]))));
            }
        }
    }
    assert_eq!(c.coord(), ChunkCoord::new(2, 2));
}

#[test]
fn generation_is_deterministic() {
    let g = TerrainGenerator::new();
    let mut a = Chunk::new(ChunkCoord::new(-3, 5));
    let mut b = Chunk::new(ChunkCoord::new(-3, 5));
    g.generate_chunk(&mut a, &samples(5));
    g.generate_chunk(&mut b, &samples(5));
    for x in 0..CHUNK_VOXELS_SIZE {
        for y in 0..CHUNK_VOXELS_HEIGHT {
            for z in 0..CHUNK_VOXELS_SIZE {
                assert_eq!(a.get_voxel(x, y, z), b.get_voxel(x, y, z));
            }
        }
    }
}
