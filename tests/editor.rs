use retroland::editor::{get_tile_layer, paint, zoom_in, zoom_out};
use retroland::renderer::TileMapRenderer;
use retroland::tilemap::{TileMap, TileMapError};

#[test]
fn ground_and_object_tiles_go_on_their_layers() {
    assert_eq!(get_tile_layer(0), 0);
    assert_eq!(get_tile_layer(2), 0);
    assert_eq!(get_tile_layer(49), 0);
    assert_eq!(get_tile_layer(50), 1);
    assert_eq!(get_tile_layer(u32::MAX), 1);
}

#[test]
fn painting_an_object_sets_layer_one() {
    let mut tile_map = TileMap::new((4, 4), 2);
    let mut renderer = TileMapRenderer::new(&tile_map, (400, 400), (4, 4), true).unwrap();
    assert_eq!(paint(&mut tile_map, &mut renderer, (1, 2), 55), Ok(()));
    assert_eq!(tile_map.get_tile((1, 2), 1), Some(55));
    assert_eq!(tile_map.get_tile((1, 2), 0), Some(2));
    assert_eq!(renderer.layers(), tile_map.tiles());
}

#[test]
fn painting_ground_clears_the_object_above() {
    let mut tile_map = TileMap::new((4, 4), 2);
    let mut renderer = TileMapRenderer::new(&tile_map, (400, 400), (4, 4), true).unwrap();
    paint(&mut tile_map, &mut renderer, (3, 3), 60).unwrap();
    assert_eq!(paint(&mut tile_map, &mut renderer, (3, 3), 4), Ok(()));
    assert_eq!(tile_map.get_tile((3, 3), 0), Some(4));
    assert_eq!(tile_map.get_tile((3, 3), 1), Some(0));
    assert_eq!(renderer.layers(), tile_map.tiles());
}

#[test]
fn painting_outside_or_on_a_single_layer_map_fails() {
    let mut tile_map = TileMap::new((4, 4), 2);
    let mut renderer = TileMapRenderer::new(&tile_map, (400, 400), (4, 4), true).unwrap();
    assert_eq!(
        paint(&mut tile_map, &mut renderer, (4, 0), 3),
        Err(TileMapError::InvalidPosition)
    );
    assert_eq!(tile_map, TileMap::new((4, 4), 2));

    let mut flat = TileMap::new((4, 4), 1);
    let mut renderer = TileMapRenderer::new(&flat, (400, 400), (4, 4), true).unwrap();
    assert_eq!(
        paint(&mut flat, &mut renderer, (0, 0), 3),
        Err(TileMapError::InvalidLayer)
    );
    assert_eq!(
        paint(&mut flat, &mut renderer, (9, 0), 3),
        Err(TileMapError::InvalidPosition)
    );
    assert_eq!(flat.get_tile((0, 0), 0), Some(2));
}

#[test]
fn zoom_steps_by_one_tile_within_bounds() {
    assert_eq!(zoom_in((15, 15)), (14, 14));
    assert_eq!(zoom_in((1, 1)), (1, 1));
    assert_eq!(zoom_out((15, 15)), (16, 16));
    assert_eq!(zoom_out((u32::MAX, u32::MAX)), (u32::MAX, u32::MAX));
}
