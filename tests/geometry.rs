use gecynd::mesh::{generate_collision_mesh, generate_mesh, visible_faces};
use gecynd::voxel::{Voxel, VoxelFace, VoxelType, WorldPos};
use gecynd::world::{Chunk, ChunkCoord};

fn block(size: usize, at: (usize, usize, usize)) -> Chunk {
    let mut c = Chunk::new(ChunkCoord::new(0, 0));
    for x in 0..size {
        for y in 0..size {
            for z in 0..size {
                c.set_voxel(at.0 + x, at.1 + y, at.2 + z, Voxel::new(VoxelType::Stone));
            }
        }
    }
    c
}

#[test]
fn empty_chunk_has_no_geometry() {
    let c = Chunk::new(ChunkCoord::new(0, 0));
    assert!(visible_faces(&c).is_empty());
    assert!(generate_mesh(&c).is_none());
    assert!(generate_collision_mesh(&c).is_none());
}

#[test]
fn solid_cube_of_eight_shows_only_boundary_faces() {
    for at in [(0, 0, 0), (5, 40, 7)] {
        let c = block(2, at);
        let faces = visible_faces(&c);
        assert_eq!(faces.len(), 24);
        for f in &faces {
            let (dx, dy, dz) = f.face.get_offset();
            let n = (f.x as i64 + dx as i64, f.y as i64 + dy as i64, f.z as i64 + dz as i64);
            let inside = |v: i64, lo: usize| v >= lo as i64 && v < lo as i64 + 2;
            assert!(!(inside(n.0, at.0) && inside(n.1, at.1) && inside(n.2, at.2)));
        }
        let m = generate_mesh(&c).unwrap();
        assert_eq!(m.positions.len(), 96);
        assert_eq!(m.normals.len(), 96);
        assert_eq!(m.uvs.len(), 96);
        assert_eq!(m.indices.len(), 144);
    }
}

#[test]
fn single_cell_mesh_is_exact() {
    let c = block(1, (2, 3, 4));
    let m = generate_mesh(&c).unwrap();
    assert_eq!(m.positions.len(), 24);
    // The first face in table order is -X.
    assert_eq!(
        &m.positions[0..4],
        &[
            WorldPos::new(2000, 3000, 5000),
            WorldPos::new(2000, 4000, 5000),
            WorldPos::new(2000, 4000, 4000),
            WorldPos::new(2000, 3000, 4000),
        ]
    );
    assert_eq!(&m.normals[0..4], &[(-1, 0, 0); 4]);
    assert_eq!(&m.uvs[0..4], &[(0, 0), (1, 0), (1, 1), (0, 1)]);
    assert_eq!(&m.indices[0..12], &[0, 1, 2, 0, 2, 3, 4, 5, 6, 4, 6, 7]);
    assert_eq!(&m.normals[20..24], &[(0, 0, 1); 4]);
    let faces = visible_faces(&c);
    assert_eq!(faces[5].face, VoxelFace::PositiveZ);
    assert_eq!((faces[5].x, faces[5].y, faces[5].z), (2, 3, 4));
}

#[test]
fn collision_surface_matches_render_mesh() {
    let mut c = block(2, (3, 3, 3));
    c.set_voxel(9, 0, 15, Voxel::new(VoxelType::Grass));
    let m = generate_mesh(&c).unwrap();
    let t = generate_collision_mesh(&c).unwrap();
    assert_eq!(m.positions, t.vertices);
    let flat: Vec<u32> = t.triangles.iter().flat_map(|&(a, b, c)| [a, b, c]).collect();
    assert_eq!(m.indices, flat);
}

#[test]
fn faces_at_chunk_edge_are_emitted() {
    let c = block(1, (0, 0, 15));
    assert_eq!(visible_faces(&c).len(), 6);
}
