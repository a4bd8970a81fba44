use gecynd::voxel::{Voxel, VoxelFace, VoxelType, WorldPos, VOXEL_SIZE};

#[test]
fn only_air_is_not_solid() {
    assert!(!VoxelType::Air.is_solid());
    assert!(VoxelType::Stone.is_solid());
    assert!(VoxelType::Dirt.is_solid());
    assert!(VoxelType::Grass.is_solid());
    assert!(Voxel::new(VoxelType::Dirt).is_solid());
    assert!(!Voxel::new(VoxelType::Air).is_solid());
}

#[test]
fn defaults_are_air() {
    assert_eq!(VoxelType::default(), VoxelType::Air);
    assert_eq!(Voxel::default(), Voxel::new(VoxelType::Air));
}

#[test]
fn face_normals_and_offsets() {
    let expected = [
        (VoxelFace::NegativeX, (-1, 0, 0)),
        (VoxelFace::PositiveX, (1, 0, 0)),
        (VoxelFace::NegativeY, (0, -1, 0)),
        (VoxelFace::PositiveY, (0, 1, 0)),
        (VoxelFace::NegativeZ, (0, 0, -1)),
        (VoxelFace::PositiveZ, (0, 0, 1)),
    ];
    for (face, n) in expected {
        assert_eq!(face.get_normal(), n);
        assert_eq!(face.get_offset(), n);
        assert_eq!(VoxelFace::from_normal(n), Some(face));
    }
}

#[test]
fn from_normal_picks_dominant_axis_in_order() {
    assert_eq!(VoxelFace::from_normal((0, 0, 0)), None);
    assert_eq!(VoxelFace::from_normal((2, -3, 0)), Some(VoxelFace::PositiveX));
    assert_eq!(VoxelFace::from_normal((0, -3, 7)), Some(VoxelFace::NegativeY));
    assert_eq!(VoxelFace::from_normal((0, 0, -7)), Some(VoxelFace::NegativeZ));
}

#[test]
fn face_vertices_follow_the_table() {
    let p = WorldPos::new(1000, 2000, 3000);
    let s = VOXEL_SIZE;
    assert_eq!(
        VoxelFace::PositiveZ.get_vertices(p, s),
        [
            WorldPos::new(2000, 2000, 4000),
            WorldPos::new(2000, 3000, 4000),
            WorldPos::new(1000, 3000, 4000),
            WorldPos::new(1000, 2000, 4000),
        ]
    );
    assert_eq!(
        VoxelFace::NegativeX.get_vertices(p, s),
        [
            WorldPos::new(1000, 2000, 4000),
            WorldPos::new(1000, 3000, 4000),
            WorldPos::new(1000, 3000, 3000),
            WorldPos::new(1000, 2000, 3000),
        ]
    );
    assert_eq!(
        VoxelFace::PositiveY.get_vertices(p, s),
        [
            WorldPos::new(1000, 3000, 4000),
            WorldPos::new(2000, 3000, 4000),
            WorldPos::new(2000, 3000, 3000),
            WorldPos::new(1000, 3000, 3000),
        ]
    );
}

fn cross(u: (i64, i64, i64), v: (i64, i64, i64)) -> (i64, i64, i64) {
    (u.1 * v.2 - u.2 * v.1, u.2 * v.0 - u.0 * v.2, u.0 * v.1 - u.1 * v.0)
}

fn edge(a: WorldPos, b: WorldPos) -> (i64, i64, i64) {
    (a.x - b.x, a.y - b.y, a.z - b.z)
}

#[test]
fn every_quad_winds_counter_clockwise_from_outside() {
    let faces = [
        VoxelFace::NegativeX,
        VoxelFace::PositiveX,
        VoxelFace::NegativeY,
        VoxelFace::PositiveY,
        VoxelFace::NegativeZ,
        VoxelFace::PositiveZ,
    ];
    let s = 1000i64;
    for f in faces {
        let q = f.get_vertices(WorldPos::new(-3000, 7000, 12000), s);
        let (nx, ny, nz) = f.get_normal();
        let area = (nx as i64 * s * s, ny as i64 * s * s, nz as i64 * s * s);
        assert_eq!(cross(edge(q[1], q[0]), edge(q[2], q[0])), area);
        assert_eq!(cross(edge(q[2], q[0]), edge(q[3], q[0])), area);
    }
}
