use voxel_engine::constants::{flat_index, CHUNK_SIZE, CHUNK_WIDTH};
use voxel_engine::render::block::Block;
use voxel_engine::world::Chunk;

fn stone() -> Block {
    Block { desc_index: 1, invisible: false, transparent: false }
}

fn glass() -> Block {
    Block { desc_index: 2, invisible: false, transparent: true }
}

/// The visibility rule written out once more, apart from the library.
fn model_write(visible: &mut Vec<bool>, x: usize, y: usize, z: usize, transparent: bool) {
    let at = |x: usize, y: usize, z: usize| x * 256 + y * 16 + z;
    let mut neighbours: Vec<usize> = Vec::new();
    if x > 0 {
        neighbours.push(at(x - 1, y, z));
    }
    if x < 15 {
        neighbours.push(at(x + 1, y, z));
    }
    if y > 0 {
        neighbours.push(at(x, y - 1, z));
    }
    if y < 15 {
        neighbours.push(at(x, y + 1, z));
    }
    if z > 0 {
        neighbours.push(at(x, y, z - 1));
    }
    if z < 15 {
        neighbours.push(at(x, y, z + 1));
    }
    let own = neighbours.iter().all(|&n| visible[n]);
    visible[at(x, y, z)] = own;
    if transparent && own {
        for n in neighbours {
            visible[n] = true;
        }
    }
}

#[test]
fn constants_agree() {
    assert_eq!(CHUNK_WIDTH, 16);
    assert_eq!(CHUNK_SIZE, 4096);
    assert_eq!(CHUNK_SIZE, CHUNK_WIDTH * CHUNK_WIDTH * CHUNK_WIDTH);
    assert_eq!(flat_index(0, 0, 0), 0);
    assert_eq!(flat_index(1, 2, 3), 256 + 32 + 3);
    assert_eq!(flat_index(15, 15, 15), 4095);
}

#[test]
fn new_chunk_is_air_and_visible() {
    let chunk = Chunk::new();
    assert_eq!(chunk.blocks.len(), 4096);
    assert_eq!(chunk.visible.len(), 4096);
    assert!(chunk.blocks.iter().all(|b| *b == Block::air()));
    assert!(chunk.visible.iter().all(|v| *v));
}

#[test]
fn get_ref_reads_the_flattened_index() {
    let mut chunk = Chunk::new();
    for i in 0..4096 {
        chunk.blocks[i] = Block { desc_index: i as u32, invisible: false, transparent: false };
    }
    for x in 0..16 {
        for y in 0..16 {
            for z in 0..16 {
                assert_eq!(chunk.get_ref(x, y, z).desc_index as usize, x * 256 + y * 16 + z);
            }
        }
    }
    assert_eq!(chunk.blocks.len(), 4096);
    assert_eq!(chunk.visible.len(), 4096);
}

#[test]
fn set_block_stores_at_the_flattened_index() {
    let mut chunk = Chunk::new();
    chunk.set_block(3, 4, 5, stone());
    assert!(chunk.blocks[3 * 256 + 4 * 16 + 5] == stone());
    assert!(*chunk.get_ref(3, 4, 5) == stone());
    let others = chunk.blocks.iter().filter(|b| **b == Block::air()).count();
    assert_eq!(others, 4095);
}

#[test]
fn set_visible_changes_one_bit() {
    let mut chunk = Chunk::new();
    chunk.set_visible(1, 2, 3, false);
    assert!(!chunk.is_visible(1, 2, 3));
    assert!(!chunk.visible[256 + 32 + 3]);
    assert_eq!(chunk.visible.iter().filter(|v| !**v).count(), 1);
    chunk.set_visible(1, 2, 3, true);
    assert!(chunk.visible.iter().all(|v| *v));
}

#[test]
fn a_cell_with_a_hidden_neighbour_becomes_hidden() {
    let mut chunk = Chunk::new();
    chunk.set_visible(5, 5, 6, false);
    chunk.set_block(5, 5, 5, stone());
    assert!(!chunk.is_visible(5, 5, 5));
    assert!(!chunk.is_visible(5, 5, 6));
    assert_eq!(chunk.visible.iter().filter(|v| !**v).count(), 2);
}

#[test]
fn a_visible_transparent_block_shows_its_neighbours() {
    let mut chunk = Chunk::new();
    chunk.set_visible(5, 5, 7, false);
    chunk.set_block(5, 5, 6, stone());
    assert!(!chunk.is_visible(5, 5, 6));
    chunk.set_visible(5, 5, 7, true);
    // (5, 5, 5) has the hidden neighbour (5, 5, 6): it becomes hidden and
    // shows nothing.
    chunk.set_block(5, 5, 5, glass());
    assert!(!chunk.is_visible(5, 5, 5));
    assert!(!chunk.is_visible(5, 5, 6));
    // (5, 5, 7) has the hidden neighbour (5, 5, 6) too.
    chunk.set_block(5, 5, 7, glass());
    assert!(!chunk.is_visible(5, 5, 7));
    // (5, 6, 6) sees only visible neighbours but for (5, 5, 6).
    chunk.set_block(5, 6, 6, glass());
    assert!(!chunk.is_visible(5, 6, 6));
    // (4, 4, 6) touches none of the hidden cells: it stays visible and one
    // ring around it is shown.
    chunk.set_block(4, 4, 6, glass());
    assert!(chunk.is_visible(4, 4, 6));
    assert!(!chunk.is_visible(5, 5, 6));
    // (5, 4, 6) is next to (5, 5, 6), hidden.
    chunk.set_block(5, 4, 6, glass());
    assert!(!chunk.is_visible(5, 4, 6));
}

#[test]
fn propagation_is_one_ring_deep() {
    let mut chunk = Chunk::new();
    chunk.set_visible(8, 8, 9, false);
    chunk.set_visible(8, 8, 10, false);
    chunk.set_visible(8, 9, 8, false);
    chunk.set_visible(8, 8, 9, true);
    chunk.set_visible(8, 9, 8, true);
    // All six neighbours of (8, 8, 8) are visible; (8, 8, 10) is two away.
    chunk.set_block(8, 8, 8, glass());
    assert!(chunk.is_visible(8, 8, 8));
    assert!(chunk.is_visible(8, 8, 9));
    assert!(!chunk.is_visible(8, 8, 10));
}

#[test]
fn boundary_cells_ignore_missing_neighbours() {
    let mut chunk = Chunk::new();
    chunk.set_block(0, 0, 0, glass());
    assert!(chunk.is_visible(0, 0, 0));
    chunk.set_block(15, 15, 15, stone());
    assert!(chunk.is_visible(15, 15, 15));
    chunk.set_visible(14, 15, 15, false);
    chunk.set_block(15, 15, 15, glass());
    assert!(!chunk.is_visible(15, 15, 15));
    assert!(!chunk.is_visible(14, 15, 15));
}

#[test]
fn visibility_is_a_function_of_the_history() {
    let script: Vec<(usize, usize, usize, bool)> = vec![
        (5, 5, 5, false),
        (5, 5, 6, true),
        (0, 0, 0, true),
        (15, 0, 7, false),
        (7, 7, 7, true),
        (7, 7, 8, false),
        (7, 8, 7, true),
        (6, 7, 7, true),
        (3, 3, 2, true),
        (3, 3, 3, false),
        (3, 3, 4, true),
    ];
    let hidden: Vec<(usize, usize, usize)> = vec![(7, 7, 6), (3, 3, 3), (5, 6, 5), (15, 1, 7)];

    let mut first = Chunk::new();
    let mut second = Chunk::new();
    let mut model: Vec<bool> = vec![true; 4096];
    for &(x, y, z) in &hidden {
        first.set_visible(x, y, z, false);
        second.set_visible(x, y, z, false);
        model[x * 256 + y * 16 + z] = false;
    }
    for &(x, y, z, transparent) in &script {
        let block = if transparent { glass() } else { stone() };
        first.set_block(x, y, z, block);
        // The second chunk gets other block ids of the same transparency.
        second.set_block(x, y, z, Block { desc_index: 9, invisible: true, transparent });
        model_write(&mut model, x, y, z, transparent);
    }
    assert!(first.visible == second.visible);
    assert_eq!(first.visible.to_vec(), model);
    // Worked by hand: (7, 7, 7) next to the hidden (7, 7, 6) is hidden, and
    // so is every later write next to it.
    assert!(!first.is_visible(7, 7, 7));
    assert!(!first.is_visible(7, 7, 8));
    assert!(!first.is_visible(7, 8, 7));
    assert!(!first.is_visible(6, 7, 7));
    // (3, 3, 2) is next to the hidden (3, 3, 3): hidden. (3, 3, 3) is then
    // next to the hidden (3, 3, 2).
    assert!(!first.is_visible(3, 3, 2));
    assert!(!first.is_visible(3, 3, 3));
    assert!(!first.is_visible(3, 3, 4));
    // (5, 5, 5) is next to the hidden (5, 6, 5).
    assert!(!first.is_visible(5, 5, 5));
    assert!(!first.is_visible(5, 5, 6));
    assert!(first.is_visible(0, 0, 0));
    assert!(!first.is_visible(15, 0, 7));
}
