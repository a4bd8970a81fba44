use gecynd::voxel::{Voxel, VoxelType, WorldPos};
use gecynd::world::{
    floor_div, get_placement_position, Chunk, ChunkCoord, CHUNK_VOXELS_HEIGHT, CHUNK_VOXELS_SIZE,
};

#[test]
fn new_chunk_is_all_air_and_stale() {
    let c = Chunk::new(ChunkCoord::new(2, -3));
    assert_eq!(c.coord(), ChunkCoord::new(2, -3));
    assert!(c.is_stale());
    for x in 0..CHUNK_VOXELS_SIZE {
        for y in [0, 100, CHUNK_VOXELS_HEIGHT - 1] {
            for z in 0..CHUNK_VOXELS_SIZE {
                assert_eq!(c.get_voxel(x, y, z), Some(&Voxel::new(VoxelType::Air)));
            }
        }
    }
}

#[test]
fn get_voxel_out_of_bounds_is_absent() {
    let c = Chunk::new(ChunkCoord::new(0, 0));
    assert_eq!(c.get_voxel(CHUNK_VOXELS_SIZE, 0, 0), None);
    assert_eq!(c.get_voxel(0, CHUNK_VOXELS_HEIGHT, 0), None);
    assert_eq!(c.get_voxel(0, 0, CHUNK_VOXELS_SIZE), None);
    assert_eq!(c.get_voxel(usize::MAX, 0, 0), None);
}

#[test]
fn set_voxel_writes_one_cell() {
    let mut c = Chunk::new(ChunkCoord::new(0, 0));
    c.set_voxel(3, 70, 9, Voxel::new(VoxelType::Grass));
    assert_eq!(c.get_voxel(3, 70, 9), Some(&Voxel::new(VoxelType::Grass)));
    assert_eq!(c.get_voxel(3, 70, 8), Some(&Voxel::new(VoxelType::Air)));
    assert_eq!(c.get_voxel(3, 71, 9), Some(&Voxel::new(VoxelType::Air)));
    assert_eq!(c.get_voxel(4, 70, 9), Some(&Voxel::new(VoxelType::Air)));
}

#[test]
fn set_voxel_out_of_bounds_is_a_no_op() {
    let mut c = Chunk::new(ChunkCoord::new(0, 0));
    c.set_voxel(CHUNK_VOXELS_SIZE, 0, 0, Voxel::new(VoxelType::Stone));
    c.set_voxel(0, CHUNK_VOXELS_HEIGHT, 0, Voxel::new(VoxelType::Stone));
    for x in 0..CHUNK_VOXELS_SIZE {
        for z in 0..CHUNK_VOXELS_SIZE {
            assert_eq!(c.get_voxel(x, 0, z), Some(&Voxel::new(VoxelType::Air)));
        }
    }
}

#[test]
fn voxel_to_world_gives_cell_center() {
    let c = Chunk::new(ChunkCoord::new(-1, 2));
    assert_eq!(c.voxel_to_world(0, 0, 0), WorldPos::new(-16000 + 500, 500, 32000 + 500));
    assert_eq!(c.voxel_to_world(15, 10, 3), WorldPos::new(-16000 + 15500, 10500, 35500));
}

#[test]
fn floor_div_rounds_down() {
    assert_eq!(floor_div(7, 2), 3);
    assert_eq!(floor_div(-7, 2), -4);
    assert_eq!(floor_div(-8, 2), -4);
    assert_eq!(floor_div(-1, 16000), -1);
    assert_eq!(floor_div(0, 16000), 0);
    assert_eq!(floor_div(i64::MIN, 1), i64::MIN);
}

#[test]
fn chunk_of_negative_position_floors() {
    // -0.5 world units lies in chunk -1, not 0.
    assert_eq!(ChunkCoord::from_world_pos(WorldPos::new(-500, 0, 0)), ChunkCoord::new(-1, 0));
    assert_eq!(ChunkCoord::from_world_pos(WorldPos::new(0, 0, -500)), ChunkCoord::new(0, -1));
    assert_eq!(ChunkCoord::from_world_pos(WorldPos::new(15999, 7, 16000)), ChunkCoord::new(0, 1));
    assert_eq!(ChunkCoord::from_world_pos(WorldPos::new(-16000, 7, -16001)), ChunkCoord::new(-1, -2));
}

#[test]
fn chunk_of_is_idempotent() {
    for x in [-40000i64, -16001, -16000, -500, 0, 1, 15999, 16000, 99999] {
        let c = ChunkCoord::from_world_pos(WorldPos::new(x, 0, -x));
        let origin = WorldPos::new(c.x as i64 * 16000, 0, c.z as i64 * 16000);
        assert_eq!(ChunkCoord::from_world_pos(origin), c);
    }
}

#[test]
fn placement_stays_inside_the_chunk() {
    let c = ChunkCoord::new(1, 1);
    assert_eq!(get_placement_position(c, 4, 5, 6, (0, 1, 0)), Some((c, 4, 6, 6)));
    assert_eq!(get_placement_position(c, 4, 5, 6, (0, 0, 0)), Some((c, 4, 6, 6)));
    assert_eq!(get_placement_position(c, 4, 5, 6, (-1, 0, 0)), Some((c, 3, 5, 6)));
    assert_eq!(get_placement_position(c, 0, 5, 6, (-1, 0, 0)), None);
    assert_eq!(get_placement_position(c, 4, CHUNK_VOXELS_HEIGHT - 1, 6, (0, 1, 0)), None);
    assert_eq!(get_placement_position(c, 4, 5, 15, (0, 0, 1)), None);
}
