use voxel_engine::render::block::{Block, BlockDescriptor, BlockRegistry};
use voxel_engine::render::texture::{AtlasTexCoords, TextureAtlas};
use voxel_engine::render::types::Vertex;
use voxel_engine::world::mesher::{add_face, can_mesh, greedy, Dir};
use voxel_engine::world::Chunk;

fn stone_registry() -> BlockRegistry {
    let mut registry = BlockRegistry::default();
    registry.add_block(BlockDescriptor::new("air", true, true, None, None, [None; 4]));
    registry.add_block(BlockDescriptor::new(
        "stone",
        false,
        false,
        Some("stone_tex"),
        Some("stone_tex"),
        [Some("stone_tex"); 4],
    ));
    registry
}

fn stone_atlas() -> TextureAtlas {
    TextureAtlas::new(vec!["stone_tex".to_string()])
}

fn cross(u: [i128; 3], v: [i128; 3]) -> [i128; 3] {
    [
        u[1] * v[2] - u[2] * v[1],
        u[2] * v[0] - u[0] * v[2],
        u[0] * v[1] - u[1] * v[0],
    ]
}

fn assert_winding(vertices: &[Vertex], indices: &[u32]) {
    assert_eq!(indices.len() % 3, 0);
    for t in indices.chunks(3) {
        let a = vertices[t[0] as usize];
        let b = vertices[t[1] as usize];
        let c = vertices[t[2] as usize];
        let u = [
            b.position[0] - a.position[0],
            b.position[1] - a.position[1],
            b.position[2] - a.position[2],
        ];
        let v = [
            c.position[0] - a.position[0],
            c.position[1] - a.position[1],
            c.position[2] - a.position[2],
        ];
        let n = cross(u, v);
        for corner in [a, b, c] {
            for k in 0..3 {
                assert_eq!(n[k].signum(), corner.normals[k].signum() as i128);
            }
        }
    }
}

#[test]
fn solid_chunk_emits_only_boundary_faces() {
    let registry = stone_registry();
    let atlas = stone_atlas();
    let mut chunk = Chunk::new();
    for x in 0..16 {
        for y in 0..16 {
            for z in 0..16 {
                chunk.set_block(x, y, z, registry.block("stone"));
            }
        }
    }
    let (vertices, indices) = greedy(&chunk, &atlas, &registry);
    assert_eq!(vertices.len(), 6144);
    assert_eq!(indices.len(), 9216);
    assert_eq!(vertices.len() / 4, 6 * 16 * 16);
    // Every quad lies in one of the six boundary planes, facing outwards.
    for quad in vertices.chunks(4) {
        let n = quad[0].normals;
        let axis = (0..3).find(|&k| n[k] != 0).unwrap();
        let plane: i128 = if n[axis] > 0 { 16 } else { 0 };
        for v in quad {
            assert_eq!(v.normals, n);
            assert_eq!(v.position[axis], plane);
        }
    }
    assert_winding(&vertices, &indices);
}

#[test]
fn air_chunk_emits_nothing() {
    let registry = stone_registry();
    let atlas = stone_atlas();
    let chunk = Chunk::new();
    let (vertices, indices) = greedy(&chunk, &atlas, &registry);
    assert_eq!(vertices.len(), 0);
    assert_eq!(indices.len(), 0);
}

#[test]
fn single_block_emits_six_faces_in_order() {
    let registry = stone_registry();
    let atlas = stone_atlas();
    let mut chunk = Chunk::new();
    chunk.set_block(8, 8, 8, registry.block("stone"));
    let (vertices, indices) = greedy(&chunk, &atlas, &registry);
    assert_eq!(vertices.len(), 24);
    assert_eq!(indices.len(), 36);
    let normals: Vec<[i8; 3]> = vertices.chunks(4).map(|q| q[0].normals).collect();
    assert_eq!(
        normals,
        vec![[0, 1, 0], [1, 0, 0], [0, 0, 1], [0, -1, 0], [-1, 0, 0], [0, 0, -1]]
    );
    // The top face.
    let positions: Vec<[i128; 3]> = vertices[0..4].iter().map(|v| v.position).collect();
    assert_eq!(positions, vec![[8, 9, 8], [9, 9, 8], [8, 9, 9], [9, 9, 9]]);
    let texcoords: Vec<[u32; 2]> = vertices[0..4].iter().map(|v| v.texcoord).collect();
    assert_eq!(texcoords, vec![[1, 0], [0, 0], [1, 1], [0, 1]]);
    assert_eq!(&indices[0..6], &[1, 0, 2, 1, 2, 3]);
    assert_eq!(&indices[6..12], &[5, 4, 6, 5, 6, 7]);
    assert_eq!(&indices[30..36], &[21, 20, 22, 21, 22, 23]);
    assert_winding(&vertices, &indices);
}

#[test]
fn every_face_has_its_corners_and_texture_corners() {
    let tex = AtlasTexCoords { bl: [10, 11], br: [20, 21], tl: [30, 31], tr: [40, 41] };
    let (bl, br, tl, tr) = (tex.bl, tex.br, tex.tl, tex.tr);
    let cases: Vec<(Dir, [[i128; 3]; 4], [[u32; 2]; 4], [i8; 3])> = vec![
        (Dir::Up, [[1, 3, 3], [2, 3, 3], [1, 3, 4], [2, 3, 4]], [tr, tl, br, bl], [0, 1, 0]),
        (Dir::Down, [[1, 2, 3], [1, 2, 4], [2, 2, 3], [2, 2, 4]], [tr, tl, br, bl], [0, -1, 0]),
        (Dir::Right, [[1, 2, 3], [1, 3, 3], [1, 2, 4], [1, 3, 4]], [br, tr, bl, tl], [-1, 0, 0]),
        (Dir::Left, [[2, 2, 3], [2, 2, 4], [2, 3, 3], [2, 3, 4]], [bl, br, tl, tr], [1, 0, 0]),
        (Dir::Back, [[1, 2, 4], [1, 3, 4], [2, 2, 4], [2, 3, 4]], [br, tr, bl, tl], [0, 0, 1]),
        (Dir::Front, [[1, 2, 3], [2, 2, 3], [1, 3, 3], [2, 3, 3]], [br, bl, tr, tl], [0, 0, -1]),
    ];
    for (dir, positions, texcoords, normal) in cases {
        let mut vertices: Vec<Vertex> = vec![Vertex::from_pos(0, 0, 0); 4];
        let mut indices: Vec<u32> = vec![7];
        add_face(&mut vertices, &mut indices, (1, 2, 3), dir, tex);
        assert_eq!(vertices.len(), 8);
        for k in 0..4 {
            assert_eq!(vertices[4 + k].position, positions[k]);
            assert_eq!(vertices[4 + k].texcoord, texcoords[k]);
            assert_eq!(vertices[4 + k].normals, normal);
        }
        assert_eq!(indices, vec![7, 5, 4, 6, 5, 6, 7]);
        assert_winding(&vertices[4..], &[1, 0, 2, 1, 2, 3]);
    }
}

#[test]
fn faces_between_opaque_blocks_are_culled() {
    let registry = stone_registry();
    let atlas = stone_atlas();
    let mut chunk = Chunk::new();
    chunk.set_block(4, 4, 4, registry.block("stone"));
    chunk.set_block(5, 4, 4, registry.block("stone"));
    let (vertices, indices) = greedy(&chunk, &atlas, &registry);
    // Two cubes share one pair of faces.
    assert_eq!(vertices.len(), 4 * 10);
    assert_eq!(indices.len(), 6 * 10);
    assert_winding(&vertices, &indices);
}

#[test]
fn block_at_the_corner_emits_all_its_faces() {
    let registry = stone_registry();
    let atlas = stone_atlas();
    let mut chunk = Chunk::new();
    chunk.set_block(0, 0, 0, registry.block("stone"));
    chunk.set_block(15, 15, 15, registry.block("stone"));
    let (vertices, indices) = greedy(&chunk, &atlas, &registry);
    assert_eq!(vertices.len(), 48);
    assert_eq!(indices.len(), 72);
    assert!(indices.iter().all(|&i| (i as usize) < vertices.len()));
}

#[test]
fn a_texture_missing_from_the_atlas_leaves_a_hole() {
    let mut registry = BlockRegistry::default();
    registry.add_block(BlockDescriptor::new("air", true, true, None, None, [None; 4]));
    registry.add_block(BlockDescriptor::new(
        "crate",
        false,
        false,
        Some("lid"),
        Some("stone_tex"),
        [Some("stone_tex"), Some("plank"), Some("stone_tex"), Some("stone_tex")],
    ));
    let atlas = stone_atlas();
    let mut chunk = Chunk::new();
    chunk.set_block(8, 8, 8, registry.block("crate"));
    let (vertices, indices) = greedy(&chunk, &atlas, &registry);
    assert_eq!(vertices.len(), 16);
    assert_eq!(indices.len(), 24);
    let normals: Vec<[i8; 3]> = vertices.chunks(4).map(|q| q[0].normals).collect();
    assert_eq!(normals, vec![[1, 0, 0], [0, 0, 1], [0, -1, 0], [0, 0, -1]]);
}

#[test]
fn side_textures_face_their_directions() {
    let mut registry = BlockRegistry::default();
    registry.add_block(BlockDescriptor::new("air", true, true, None, None, [None; 4]));
    registry.add_block(BlockDescriptor::new(
        "dice",
        false,
        false,
        Some("t0"),
        Some("t1"),
        [Some("t2"), Some("t3"), Some("t4"), Some("t5")],
    ));
    let names = ["t0", "t1", "t2", "t3", "t4", "t5"];
    let atlas = TextureAtlas::new(names.iter().map(|n| n.to_string()).collect());
    assert_eq!(atlas.size(), (3, 3));
    let mut chunk = Chunk::new();
    chunk.set_block(2, 2, 2, registry.block("dice"));
    let (vertices, _) = greedy(&chunk, &atlas, &registry);
    assert_eq!(vertices.len(), 24);
    // Faces come as +Y, +X, +Z, -Y, -X, -Z and show top, side 3, side 2,
    // bottom, side 1, side 0.
    let shown = ["t0", "t5", "t4", "t1", "t3", "t2"];
    for (quad, name) in vertices.chunks(4).zip(shown.iter()) {
        let coords = atlas.coords_of(&name.to_string()).unwrap();
        let mut corners: Vec<[u32; 2]> = quad.iter().map(|v| v.texcoord).collect();
        corners.sort();
        let mut expected = vec![coords.bl, coords.br, coords.tl, coords.tr];
        expected.sort();
        assert_eq!(corners, expected);
    }
}

#[test]
fn invisible_blocks_and_hidden_cells_emit_nothing() {
    let registry = stone_registry();
    let atlas = stone_atlas();
    let mut chunk = Chunk::new();
    chunk.set_block(3, 3, 3, Block { desc_index: 1, invisible: true, transparent: false });
    chunk.set_block(9, 9, 9, registry.block("stone"));
    chunk.set_visible(9, 9, 9, false);
    let (vertices, indices) = greedy(&chunk, &atlas, &registry);
    assert_eq!(vertices.len(), 0);
    assert_eq!(indices.len(), 0);
    chunk.set_visible(9, 9, 9, true);
    let (vertices, _) = greedy(&chunk, &atlas, &registry);
    // The opaque neighbour-less block at (9, 9, 9) now shows all six faces.
    assert_eq!(vertices.len(), 24);
}

#[test]
fn indices_match_vertices_four_to_six() {
    let registry = stone_registry();
    let atlas = stone_atlas();
    let mut chunk = Chunk::new();
    for i in 0..16 {
        chunk.set_block(i, (i * 7) % 16, (i * 3) % 16, registry.block("stone"));
        chunk.set_block(i, i, 0, registry.block("stone"));
    }
    let (vertices, indices) = greedy(&chunk, &atlas, &registry);
    assert!(vertices.len() > 0);
    assert_eq!(vertices.len() % 4, 0);
    assert_eq!(indices.len(), 6 * (vertices.len() / 4));
    for (q, six) in indices.chunks(6).enumerate() {
        let s = 4 * q as u32;
        assert_eq!(six, &[s + 1, s, s + 2, s + 1, s + 2, s + 3]);
    }
    assert_winding(&vertices, &indices);
}

#[test]
fn get_mesh_matches_greedy_and_caches() {
    let registry = stone_registry();
    let atlas = stone_atlas();
    let mut chunk = Chunk::new();
    let (v0, i0) = chunk.get_mesh(&atlas, &registry);
    assert!(v0.is_empty() && i0.is_empty());
    chunk.set_block(1, 1, 1, registry.block("stone"));
    let (expected_v, expected_i) = greedy(&chunk, &atlas, &registry);
    let (v1, i1) = chunk.get_mesh(&atlas, &registry);
    assert_eq!(v1.len(), 24);
    assert_eq!(i1, expected_i);
    for (a, b) in v1.iter().zip(expected_v.iter()) {
        assert_eq!(a.position, b.position);
        assert_eq!(a.texcoord, b.texcoord);
        assert_eq!(a.normals, b.normals);
    }
    let (cached_v, cached_i) = chunk.cached_mesh();
    assert_eq!(cached_v.len(), 24);
    assert_eq!(cached_i, i1);
}

#[test]
fn vertex_from_pos_and_translated() {
    let v = Vertex::from_pos(1, -2, 3);
    assert_eq!(v.position, [1, -2, 3]);
    assert_eq!(v.texcoord, [0, 0]);
    assert_eq!(v.normals, [0, 0, 0]);
    let mut w = v;
    w.texcoord = [4, 5];
    w.normals = [0, -1, 0];
    let moved = w.translated(16, 32, -48);
    assert_eq!(moved.position, [17, 30, -45]);
    assert_eq!(moved.texcoord, [4, 5]);
    assert_eq!(moved.normals, [0, -1, 0]);
}

#[test]
fn can_mesh_tells_what_greedy_accepts() {
    let registry = stone_registry();
    let mut chunk = Chunk::new();
    assert!(can_mesh(&chunk, &registry));
    // Air has descriptor 0: an empty registry knows no block at all.
    assert!(!can_mesh(&chunk, &BlockRegistry::default()));
    chunk.set_block(8, 8, 8, registry.block("stone"));
    assert!(can_mesh(&chunk, &registry));
    // A descriptor that is not registered.
    chunk.set_block(1, 1, 1, Block { desc_index: 7, invisible: true, transparent: true });
    assert!(!can_mesh(&chunk, &registry));
    chunk.set_block(1, 1, 1, Block::air());
    assert!(can_mesh(&chunk, &registry));

    // A block that renders but names no texture for an exposed face.
    let mut bare = BlockRegistry::default();
    bare.add_block(BlockDescriptor::new("air", true, true, None, None, [None; 4]));
    bare.add_block(BlockDescriptor::new(
        "lidless",
        false,
        false,
        None,
        Some("stone_tex"),
        [Some("stone_tex"); 4],
    ));
    let mut chunk = Chunk::new();
    chunk.set_block(8, 8, 8, bare.block("lidless"));
    assert!(!can_mesh(&chunk, &bare));
    // Covered by an opaque block, the face without texture is not exposed.
    chunk.set_block(8, 9, 8, Block { desc_index: 0, invisible: true, transparent: false });
    assert!(can_mesh(&chunk, &bare));
    let (vertices, _) = greedy(&chunk, &stone_atlas(), &bare);
    assert_eq!(vertices.len(), 20);
    // Hidden cells need no textures.
    chunk.set_block(8, 9, 8, Block::air());
    assert!(!can_mesh(&chunk, &bare));
    chunk.set_visible(8, 8, 8, false);
    assert!(can_mesh(&chunk, &bare));
}

#[test]
fn a_chunk_is_dirty_once_written() {
    let mut chunk = Chunk::new();
    assert!(!chunk.needs_remesh());
    chunk.set_visible(1, 1, 1, false);
    assert!(!chunk.needs_remesh());
    chunk.set_block(0, 0, 0, Block::air());
    assert!(chunk.needs_remesh());
    let registry = stone_registry();
    chunk.get_mesh(&stone_atlas(), &registry);
    assert!(chunk.needs_remesh());
}
