use retroland::tilemap::{TileMap, TileMapError, Vector2u};

#[test]
fn test_tile_map_new() {
    let tile_map = TileMap::new((20, 10), 2);

    assert_eq!(tile_map.tiles().len(), 2);
    assert_eq!(tile_map.size().x, 20);
    assert_eq!(tile_map.size().y, 10);
    assert_eq!(tile_map.nb_layers(), 2);
    assert_eq!(tile_map.tiles().get(0).unwrap().len(), 20 * 10);
    assert_eq!(tile_map.tiles().get(1).unwrap().len(), 20 * 10);

    // The first layer is filled with 2
    for i in 0..200 {
        assert_eq!(tile_map.tiles()[0][i], 2);
    }

    // The second layer is filled with 0
    for i in 0..200 {
        assert_eq!(tile_map.tiles()[1][i], 0);
    }
}

#[test]
fn tilemap_test_tile_map_new() {
    let tile_map = TileMap::new((20, 10), 2);

    assert_eq!(tile_map.tiles().len(), 2);
    assert_eq!(tile_map.size().x, 20);
    assert_eq!(tile_map.size().y, 10);
    assert_eq!(tile_map.tiles().get(0).unwrap().len(), 20 * 10);
    assert_eq!(tile_map.tiles().get(1).unwrap().len(), 20 * 10);

    for i in 0..200 {
        assert_eq!(tile_map.tiles()[0][i], 2);
    }

    for i in 0..200 {
        assert_eq!(tile_map.tiles()[1][i], 0);
    }
}

#[test]
fn test_tile_map_get_tile() {
    let tile_map = TileMap::new((20, 10), 2);

    for layer in 0..2 {
        for y in 0..10 {
            for x in 0..20 {
                let expected_value = if layer == 0 { 2 } else { 0 };
                assert_eq!(tile_map.get_tile((x, y), layer).unwrap(), expected_value);
            }
        }
    }

    // Access to a cell that does not exist gives None
    assert!(tile_map.get_tile((30, 5), 0).is_none()); // position not valid
    assert!(tile_map.get_tile((0, 0), 22).is_none()); // layer doesn't exist
}

#[test]
fn tilemap_test_tile_map_get_tile() {
    let tile_map = TileMap::new((20, 10), 2);

    for layer in 0..2 {
        for y in 0..10 {
            for x in 0..20 {
                let expected_value = if layer == 0 { 2 } else { 0 };
                assert_eq!(tile_map.get_tile((x, y), layer).unwrap(), expected_value);
            }
        }
    }

    assert!(tile_map.get_tile((30, 5), 0).is_none());
    assert!(tile_map.get_tile((0, 0), 22).is_none());
}

#[test]
fn test_tile_map_set_tile() {
    let mut tile_map = TileMap::new((6, 5), 2);

    assert!(tile_map.set_tile((0, 0), 0, 12).is_ok());
    assert_eq!(tile_map.tiles()[0][0], 12);
    assert!(tile_map.set_tile((0, 0), 1, 12).is_ok());
    assert_eq!(tile_map.tiles()[1][0], 12);

    assert!(tile_map.set_tile((1, 1), 0, 12).is_ok());
    assert_eq!(tile_map.tiles()[0][7], 12);
    assert!(tile_map.set_tile((1, 1), 1, 12).is_ok());
    assert_eq!(tile_map.tiles()[1][7], 12);

    assert!(tile_map.set_tile((5, 4), 0, 12).is_ok());
    assert_eq!(tile_map.tiles()[0][29], 12);
    assert!(tile_map.set_tile((5, 4), 1, 12).is_ok());
    assert_eq!(tile_map.tiles()[1][29], 12);

    // Impossible writes
    assert_eq!(
        tile_map.set_tile((0, 0), 10, 12).err().unwrap(),
        TileMapError::InvalidLayer
    );
    assert_eq!(
        tile_map.set_tile((70, 0), 1, 12).err().unwrap(),
        TileMapError::InvalidPosition
    );
}

#[test]
fn test_tile_map_compute_index() {
    let tile_map = TileMap::new((6, 5), 2);

    assert_eq!(tile_map.compute_index((0, 0)).unwrap(), 0);
    assert_eq!(tile_map.compute_index((1, 1)).unwrap(), 7);
    assert_eq!(tile_map.compute_index((5, 4)).unwrap(), 29);
    assert!(tile_map.compute_index((70, 0)).is_none());
}

#[test]
fn test_tile_map_size() {
    let tile_map = TileMap::new((20, 10), 2);

    let size = tile_map.size();
    assert_eq!(size.x, 20);
    assert_eq!(size.y, 10);
}

#[test]
fn test_tile_nb_layers() {
    let tile_map = TileMap::new((20, 10), 2);

    assert_eq!(tile_map.nb_layers(), 2);
}

#[test]
fn set_then_get_returns_the_written_id() {
    let mut tile_map = TileMap::new((4, 3), 3);
    for layer in 0..3 {
        for y in 0..3 {
            for x in 0..4 {
                let id = 100 + layer * 20 + y * 4 + x;
                assert_eq!(tile_map.set_tile((x, y), layer, id), Ok(()));
                assert_eq!(tile_map.get_tile((x, y), layer), Some(id));
            }
        }
    }
    assert_eq!(tile_map.get_tile((2, 1), 1), Some(100 + 20 + 4 + 2));
}

#[test]
fn set_tile_leaves_other_cells_alone() {
    let mut tile_map = TileMap::new((3, 3), 2);
    assert_eq!(tile_map.set_tile((1, 2), 1, 9), Ok(()));
    assert_eq!(tile_map.tiles()[1][7], 9);
    let changed = tile_map.tiles()[1].iter().filter(|&&id| id != 0).count();
    assert_eq!(changed, 1);
    assert!(tile_map.tiles()[0].iter().all(|&id| id == 2));
}

#[test]
fn out_of_bounds_position_is_reported_before_layer() {
    let mut tile_map = TileMap::new((5, 4), 2);
    assert_eq!(tile_map.get_tile((5, 0), 0), None);
    assert_eq!(tile_map.get_tile((0, 4), 0), None);
    assert_eq!(tile_map.set_tile((5, 0), 0, 1), Err(TileMapError::InvalidPosition));
    assert_eq!(tile_map.set_tile((0, 4), 1, 1), Err(TileMapError::InvalidPosition));
    // Both position and layer invalid: the position wins.
    assert_eq!(tile_map.set_tile((9, 9), 7, 1), Err(TileMapError::InvalidPosition));
    assert_eq!(tile_map.set_tile((4, 3), 2, 1), Err(TileMapError::InvalidLayer));
    // Nothing changed.
    assert_eq!(tile_map, TileMap::new((5, 4), 2));
}

#[test]
fn compute_index_is_row_major_and_one_to_one() {
    let tile_map = TileMap::new((7, 3), 1);
    let mut seen = vec![false; 21];
    for y in 0..3u32 {
        for x in 0..7u32 {
            let i = tile_map.compute_index((x, y)).unwrap();
            assert_eq!(i, (x + y * 7) as usize);
            assert!(!seen[i]);
            seen[i] = true;
        }
    }
    assert!(seen.iter().all(|&s| s));
    assert_eq!(tile_map.compute_index((7, 0)), None);
    assert_eq!(tile_map.compute_index((0, 3)), None);
}

#[test]
fn construction_seeds_ground_then_empty_layers() {
    let tile_map = TileMap::new((3, 2), 4);
    assert_eq!(tile_map.nb_layers(), 4);
    assert_eq!(tile_map.tiles().len(), 4);
    for (l, layer) in tile_map.tiles().iter().enumerate() {
        assert_eq!(layer.len(), 6);
        let expected = if l == 0 { 2 } else { 0 };
        assert!(layer.iter().all(|&id| id == expected));
    }
}

#[test]
fn zero_area_map_is_valid_and_empty() {
    let tile_map = TileMap::new((0, 5), 2);
    assert_eq!(tile_map.tiles()[0].len(), 0);
    assert_eq!(tile_map.tiles()[1].len(), 0);
    assert_eq!(tile_map.get_tile((0, 0), 0), None);
    assert_eq!(tile_map.compute_index((0, 0)), None);
}

#[test]
fn size_converts_from_a_pair() {
    let v: Vector2u = (3, 4).into();
    assert_eq!(v, Vector2u { x: 3, y: 4 });
    assert_eq!(TileMap::new((3, 4), 1).size(), v);
}
