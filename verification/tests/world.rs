use voxel_engine::render::block::{Block, BlockDescriptor, BlockRegistry};
use voxel_engine::render::texture::TextureAtlas;
use voxel_engine::render::types::Vertex;
use voxel_engine::world::mesher::greedy;
use voxel_engine::world::stitch::{max_index, merge_mesh};
use voxel_engine::world::{Chunk, ChunkPos, GenBalls, GenFullRandom, World, WorldGen};

fn registry() -> BlockRegistry {
    let mut registry = BlockRegistry::default();
    registry.add_block(BlockDescriptor::new("air", true, true, None, None, [None; 4]));
    registry.add_block(BlockDescriptor::new(
        "grass",
        false,
        false,
        Some("grass_top"),
        Some("grass_bottom"),
        [Some("grass_side"); 4],
    ));
    registry.add_block(BlockDescriptor::new(
        "dirt",
        false,
        false,
        Some("grass_bottom"),
        Some("grass_bottom"),
        [Some("grass_bottom"); 4],
    ));
    registry
}

fn atlas() -> TextureAtlas {
    TextureAtlas::new(vec![
        "grass_top".to_string(),
        "grass_bottom".to_string(),
        "grass_side".to_string(),
    ])
}

/// A generator that leaves all but one column of a chunk empty.
struct Column;

impl WorldGen for Column {
    fn at(&self, coords: (usize, usize, usize), palette: &BlockRegistry) -> Block {
        if coords.0 == 3 && coords.2 == 4 {
            palette.block("grass")
        } else {
            palette.block("air")
        }
    }
}

#[test]
fn in_sphere_compares_squared_distances() {
    assert!(GenBalls::in_sphere(8, 8, 8, 7));
    assert!(GenBalls::in_sphere(8, 8, 14, 7));
    assert!(!GenBalls::in_sphere(8, 8, 15, 7));
    assert!(GenBalls::in_sphere(8, 8, 2, 7));
    assert!(!GenBalls::in_sphere(8, 8, 1, 7));
    assert!(!GenBalls::in_sphere(0, 0, 0, 7));
    assert!(GenBalls::in_sphere(0, 0, 0, 14));
    assert!(!GenBalls::in_sphere(0, 0, 0, 13));
    assert!(GenBalls::in_sphere(16, 16, 16, 18));
    assert!(!GenBalls::in_sphere(8, 8, 8, 0));
    assert!(GenBalls::in_sphere(8, 8, 8, 1));
    assert!(!GenBalls::in_sphere(usize::MAX, 8, 8, u32::MAX));
    assert!(!GenBalls::in_sphere(8, 8, 8 + 0xFFFF_FFFF, u32::MAX));
    assert!(GenBalls::in_sphere(8, 8, 8 + 0xFFFF_FFFE, u32::MAX));
}

#[test]
fn generators_pick_blocks_by_name() {
    let registry = registry();
    let balls = GenBalls {};
    for coords in [(0, 0, 0), (8, 8, 8), (15, 15, 15), (0, 15, 7)] {
        assert!(balls.at(coords, &registry) == registry.block("dirt"));
    }
    let full = GenFullRandom {};
    assert!(full.at((1, 2, 3), &registry) == registry.block("dirt"));
}

#[test]
fn missing_chunk_is_reported_with_its_coordinates() {
    let world = World::new();
    match world.get_chunk(ChunkPos::new(1, -2, 3)) {
        Ok(_) => panic!("the world is empty"),
        Err(msg) => assert_eq!(msg, "Chunk 1, -2, 3 doesn't exist"),
    }
    match world.get_chunk(ChunkPos::new(0, 0, 0)) {
        Ok(_) => panic!("the world is empty"),
        Err(msg) => assert_eq!(msg, "Chunk 0, 0, 0 doesn't exist"),
    }
}

#[test]
fn chunks_are_generated_once() {
    let registry = registry();
    let mut world = World::new();
    assert_eq!(world.len(), 0);
    let p = ChunkPos::new(2, 0, -1);
    {
        let chunk = world.get_chunk_or_generate(p, &registry);
        assert!(chunk.blocks.iter().all(|b| *b == Block {
            desc_index: 2,
            invisible: false,
            transparent: false
        }));
        assert!(chunk.visible.iter().all(|v| *v));
    }
    assert_eq!(world.len(), 1);
    world.get_chunk_or_generate(p, &registry);
    assert_eq!(world.len(), 1);
    assert!(world.get_chunk(p).is_ok());
    assert!(world.get_chunk(ChunkPos::new(2, 0, 1)).is_err());
    world.get_chunk_or_generate(ChunkPos::new(2, 0, 1), &registry);
    assert_eq!(world.len(), 2);
}

#[test]
fn generating_an_existing_chunk_fails() {
    let registry = registry();
    let mut world = World::new();
    let p = ChunkPos::new(0, 0, 0);
    assert!(world.generate_chunk(p, &registry).is_ok());
    assert_eq!(world.len(), 0);
    world.get_chunk_or_generate(p, &registry);
    match world.generate_chunk(p, &registry) {
        Ok(_) => panic!("the chunk exists"),
        Err(msg) => assert_eq!(msg, "Chunk already exists"),
    }
    assert!(world.generate_chunk(ChunkPos::new(0, 0, 1), &registry).is_ok());
}

#[test]
fn a_world_without_generator_makes_empty_chunks() {
    let registry = registry();
    let mut world: World<GenBalls> = World::with_generator(None);
    let chunk = world.generate_chunk(ChunkPos::new(0, 0, 0), &registry).unwrap();
    assert!(chunk.blocks.iter().all(|b| *b == Block::air()));
    assert!(chunk.visible.iter().all(|v| *v));
    let empty = BlockRegistry::default();
    let chunk = world.get_chunk_or_generate(ChunkPos::new(5, 5, 5), &empty);
    assert!(chunk.blocks.iter().all(|b| *b == Block::air()));
}

#[test]
fn a_custom_generator_fills_the_cells_it_chooses() {
    let registry = registry();
    let mut world = World::with_generator(Some(Column {}));
    let chunk = world.get_chunk_or_generate(ChunkPos::new(0, 0, 0), &registry);
    for x in 0..16 {
        for y in 0..16 {
            for z in 0..16 {
                let expected = if x == 3 && z == 4 { 1 } else { 0 };
                assert_eq!(chunk.get_ref(x, y, z).desc_index, expected);
            }
        }
    }
}

#[test]
fn world_mesh_joins_the_chunks() {
    let registry = registry();
    let atlas = atlas();
    let mut world = World::with_generator(Some(GenFullRandom {}));
    world.get_chunk_or_generate(ChunkPos::new(0, 0, 0), &registry);
    world.get_chunk_or_generate(ChunkPos::new(1, 0, -1), &registry);
    world.get_chunk_or_generate(ChunkPos::new(-3, 2, 0), &registry);
    let (vertices, indices) = world.make_mesh(&atlas, &registry);
    assert_eq!(vertices.len(), 3 * 6144);
    assert_eq!(indices.len(), 3 * 9216);
    assert!(indices.iter().all(|&i| (i as usize) < vertices.len()));
    assert_eq!(*indices.iter().max().unwrap() as usize, vertices.len() - 1);
    // Each chunk's indices name its own vertices.
    for (c, part) in indices.chunks(9216).enumerate() {
        assert!(part.iter().all(|&i| (i as usize) / 6144 == c));
    }
    // The first vertex of a solid chunk is the corner (0, 0, 0) of its
    // bottom face; each chunk's mesh starts at the chunk's origin.
    assert_eq!(vertices[0].position, [0, 0, 0]);
    assert_eq!(vertices[6144].position, [16, 0, -16]);
    assert_eq!(vertices[2 * 6144].position, [-48, 32, 0]);
    for (c, origin) in [[0i128, 0, 0], [16, 0, -16], [-48, 32, 0]].iter().enumerate() {
        for v in &vertices[c * 6144..(c + 1) * 6144] {
            for k in 0..3 {
                assert!(origin[k] <= v.position[k] && v.position[k] <= origin[k] + 16);
            }
        }
    }
    // The mesh of a single chunk is found again, moved.
    let single = greedy(world.get_chunk(ChunkPos::new(1, 0, -1)).unwrap(), &atlas, &registry);
    for (local, global) in single.0.iter().zip(&vertices[6144..2 * 6144]) {
        assert_eq!(global.position[0], local.position[0] + 16);
        assert_eq!(global.position[1], local.position[1]);
        assert_eq!(global.position[2], local.position[2] - 16);
        assert_eq!(global.texcoord, local.texcoord);
        assert_eq!(global.normals, local.normals);
    }
    for (local, global) in single.1.iter().zip(&indices[9216..2 * 9216]) {
        assert_eq!(*global, *local + 6144);
    }
}

#[test]
fn world_mesh_of_an_empty_world_is_empty() {
    let registry = registry();
    let atlas = atlas();
    let mut world = World::new();
    let (vertices, indices) = world.make_mesh(&atlas, &registry);
    assert!(vertices.is_empty());
    assert!(indices.is_empty());
}

#[test]
fn world_mesh_skips_empty_chunks() {
    let registry = registry();
    let atlas = atlas();
    let mut world = World::with_generator(Some(Column {}));
    world.get_chunk_or_generate(ChunkPos::new(0, 0, 0), &registry);
    let mut empty: World<Column> = World::with_generator(None);
    empty.get_chunk_or_generate(ChunkPos::new(0, 0, 0), &registry);
    let (vertices, indices) = empty.make_mesh(&atlas, &registry);
    assert!(vertices.is_empty() && indices.is_empty());
    let (vertices, indices) = world.make_mesh(&atlas, &registry);
    // A column of 16 blocks: 4 sides each, a top and a bottom.
    assert_eq!(vertices.len(), 4 * (16 * 4 + 2));
    assert_eq!(indices.len(), 6 * (16 * 4 + 2));
}

#[test]
fn max_index_finds_the_greatest() {
    assert_eq!(max_index(&vec![3]), 3);
    assert_eq!(max_index(&vec![1, 0, 2, 1, 2, 3]), 3);
    assert_eq!(max_index(&vec![9, 4, 9, 2]), 9);
    assert_eq!(max_index(&vec![0, u32::MAX, 7]), u32::MAX);
}

#[test]
fn merging_rebases_by_the_greatest_index_in_the_buffer() {
    let quad = |x: i128| -> Vec<Vertex> {
        vec![
            Vertex::from_pos(x, 0, 0),
            Vertex::from_pos(x + 1, 0, 0),
            Vertex::from_pos(x, 1, 0),
            Vertex::from_pos(x + 1, 1, 0),
        ]
    };
    let mut vertices: Vec<Vertex> = Vec::new();
    let mut indices: Vec<u32> = Vec::new();
    merge_mesh(
        &mut vertices,
        &mut indices,
        ChunkPos::new(1, 2, 3),
        quad(0),
        vec![1, 0, 2, 1, 2, 3],
    );
    assert_eq!(indices, vec![1, 0, 2, 1, 2, 3]);
    assert_eq!(vertices[0].position, [16, 32, 48]);
    assert_eq!(vertices[3].position, [17, 33, 48]);
    merge_mesh(&mut vertices, &mut indices, ChunkPos::new(0, 0, 0), Vec::new(), Vec::new());
    assert_eq!(vertices.len(), 4);
    assert_eq!(indices.len(), 6);
    merge_mesh(
        &mut vertices,
        &mut indices,
        ChunkPos::new(-1, 0, 0),
        quad(5),
        vec![1, 0, 2, 1, 2, 3],
    );
    assert_eq!(indices, vec![1, 0, 2, 1, 2, 3, 5, 4, 6, 5, 6, 7]);
    assert_eq!(vertices[4].position, [-11, 0, 0]);
    // The offset comes from the greatest index, not from the vertex count.
    let mut sparse_vertices: Vec<Vertex> = quad(0);
    let mut sparse_indices: Vec<u32> = vec![0, 1, 2];
    merge_mesh(
        &mut sparse_vertices,
        &mut sparse_indices,
        ChunkPos::new(0, 0, 0),
        quad(1),
        vec![0, 1, 2],
    );
    assert_eq!(sparse_indices, vec![0, 1, 2, 3, 4, 5]);
}

#[test]
fn merging_in_any_order_keeps_counts_and_ranges() {
    let registry = registry();
    let atlas = atlas();
    let mut a = Chunk::new();
    a.set_block(1, 1, 1, registry.block("dirt"));
    let mut b = Chunk::new();
    b.set_block(2, 2, 2, registry.block("grass"));
    b.set_block(3, 2, 2, registry.block("grass"));
    let c = Chunk::new();
    let meshes = vec![
        (ChunkPos::new(0, 0, 0), greedy(&a, &atlas, &registry)),
        (ChunkPos::new(1, 0, 0), greedy(&b, &atlas, &registry)),
        (ChunkPos::new(0, 1, 0), greedy(&c, &atlas, &registry)),
    ];
    let orders: Vec<[usize; 3]> =
        vec![[0, 1, 2], [0, 2, 1], [1, 0, 2], [1, 2, 0], [2, 0, 1], [2, 1, 0]];
    for order in orders {
        let mut vertices: Vec<Vertex> = Vec::new();
        let mut indices: Vec<u32> = Vec::new();
        for k in order {
            let (p, (v, i)) = &meshes[k];
            merge_mesh(&mut vertices, &mut indices, *p, v.clone(), i.clone());
        }
        assert_eq!(vertices.len(), 24 + 40);
        assert_eq!(indices.len(), 36 + 60);
        assert!(indices.iter().all(|&i| (i as usize) < vertices.len()));
        for (q, six) in indices.chunks(6).enumerate() {
            let s = 4 * q as u32;
            assert_eq!(six, &[s + 1, s, s + 2, s + 1, s + 2, s + 3]);
        }
    }
}

#[test]
fn can_make_mesh_tells_what_make_mesh_accepts() {
    let registry = registry();
    let atlas = atlas();
    let mut world = World::with_generator(Some(Column {}));
    assert!(world.can_make_mesh(&registry));
    assert!(world.can_make_mesh(&BlockRegistry::default()));
    world.get_chunk_or_generate(ChunkPos::new(0, 0, 0), &registry);
    assert!(world.can_make_mesh(&registry));
    // The chunk holds blocks that a smaller registry does not know.
    let mut small = BlockRegistry::default();
    small.add_block(BlockDescriptor::new("air", true, true, None, None, [None; 4]));
    assert!(!world.can_make_mesh(&small));
    assert!(!world.can_make_mesh(&BlockRegistry::default()));
    // A chunk that was never written is meshed without a look at the registry.
    let mut untouched: World<Column> = World::with_generator(None);
    untouched.get_chunk_or_generate(ChunkPos::new(0, 0, 0), &registry);
    assert!(untouched.can_make_mesh(&BlockRegistry::default()));
    let (vertices, indices) = untouched.make_mesh(&atlas, &BlockRegistry::default());
    assert!(vertices.is_empty() && indices.is_empty());
    assert_eq!(voxel_engine::world::MAX_MESHED_CHUNKS, 43690);
}

#[test]
fn the_generated_chunk_is_the_one_found_later() {
    let registry = registry();
    let mut world = World::with_generator(Some(Column {}));
    let p = ChunkPos::new(7, -7, 7);
    let first: Vec<Block> = world.get_chunk_or_generate(p, &registry).blocks.to_vec();
    let again: Vec<Block> = world.get_chunk_or_generate(p, &registry).blocks.to_vec();
    let found: Vec<Block> = world.get_chunk(p).unwrap().blocks.to_vec();
    assert_eq!(first, again);
    assert_eq!(first, found);
    assert_eq!(first.iter().filter(|b| b.desc_index == 1).count(), 16);
}
