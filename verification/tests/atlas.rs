use voxel_engine::render::texture::{best_packing_size, AtlasError, TextureAtlas};

#[test]
fn packing_size_is_the_smallest_square() {
    assert_eq!(best_packing_size(0), (0, 0));
    assert_eq!(best_packing_size(1), (1, 1));
    assert_eq!(best_packing_size(2), (2, 2));
    assert_eq!(best_packing_size(3), (2, 2));
    assert_eq!(best_packing_size(4), (2, 2));
    assert_eq!(best_packing_size(5), (3, 3));
    assert_eq!(best_packing_size(9), (3, 3));
    assert_eq!(best_packing_size(10), (4, 4));
    assert_eq!(best_packing_size(1_000_000), (1000, 1000));
    assert_eq!(best_packing_size(1_000_001), (1001, 1001));
}

#[test]
fn packing_size_at_the_upper_limit() {
    let limit: u64 = 0xFFFF_FFFF * 0xFFFF_FFFF;
    assert_eq!(best_packing_size(limit as usize), (0xFFFF_FFFF, 0xFFFF_FFFF));
    assert_eq!(best_packing_size((limit - 1) as usize), (0xFFFF_FFFF, 0xFFFF_FFFF));
}

#[test]
fn atlas_places_textures_column_by_column() {
    let atlas = TextureAtlas::new(vec![
        "grass_top".to_string(),
        "grass_bottom".to_string(),
        "grass_side".to_string(),
    ]);
    assert_eq!(atlas.len(), 3);
    assert_eq!(atlas.size(), (2, 2));

    let top = atlas.coords_of(&"grass_top".to_string()).unwrap();
    assert_eq!(top.tl, [0, 0]);
    assert_eq!(top.tr, [1, 0]);
    assert_eq!(top.bl, [0, 1]);
    assert_eq!(top.br, [1, 1]);

    let bottom = atlas.coords_of(&"grass_bottom".to_string()).unwrap();
    assert_eq!(bottom.tl, [0, 1]);
    assert_eq!(bottom.tr, [1, 1]);
    assert_eq!(bottom.bl, [0, 2]);
    assert_eq!(bottom.br, [1, 2]);

    let side = atlas.coords_of(&"grass_side".to_string()).unwrap();
    assert_eq!(side.tl, [1, 0]);
    assert_eq!(side.tr, [2, 0]);
    assert_eq!(side.bl, [1, 1]);
    assert_eq!(side.br, [2, 1]);
}

#[test]
fn atlas_lookup_of_unknown_name_fails() {
    let atlas = TextureAtlas::new(vec!["stone".to_string()]);
    assert!(matches!(
        atlas.coords_of(&"granite".to_string()),
        Err(AtlasError::MissingTexture)
    ));
    assert!(atlas.coords_of(&"stone".to_string()).is_ok());
}

#[test]
fn empty_atlas_holds_nothing() {
    let atlas = TextureAtlas::new(Vec::new());
    assert_eq!(atlas.len(), 0);
    assert_eq!(atlas.size(), (0, 0));
    assert!(atlas.coords_of(&"stone".to_string()).is_err());
}

#[test]
fn a_texture_packed_twice_is_found_at_its_later_tile() {
    let atlas = TextureAtlas::new(vec![
        "a".to_string(),
        "b".to_string(),
        "a".to_string(),
        "c".to_string(),
        "d".to_string(),
    ]);
    assert_eq!(atlas.size(), (3, 3));
    let a = atlas.coords_of(&"a".to_string()).unwrap();
    assert_eq!(a.tl, [0, 2]);
    assert_eq!(a.br, [1, 3]);
    let d = atlas.coords_of(&"d".to_string()).unwrap();
    assert_eq!(d.tl, [1, 1]);
}

#[test]
fn tiles_fill_columns_top_to_bottom() {
    let names: Vec<String> = (0..7).map(|i| format!("t{}", i)).collect();
    let atlas = TextureAtlas::new(names.clone());
    assert_eq!(atlas.size(), (3, 3));
    let tiles: Vec<(u32, u32)> = (0..7).map(|i| atlas.tile_of_index(i)).collect();
    assert_eq!(tiles, vec![(0, 0), (0, 1), (0, 2), (1, 0), (1, 1), (1, 2), (2, 0)]);
    for (i, name) in names.iter().enumerate() {
        let (x, y) = atlas.tile_of_index(i);
        let coords = atlas.coords_of(name).unwrap();
        assert_eq!(coords.tl, [x, y]);
        assert_eq!(coords.tr, [x + 1, y]);
        assert_eq!(coords.bl, [x, y + 1]);
        assert_eq!(coords.br, [x + 1, y + 1]);
    }
    assert_eq!(voxel_engine::render::texture::TILE_PIXELS, 16);
}
