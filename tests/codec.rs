use retroland::tilemap::{TileMap, TileMapError};

fn le32(v: u32) -> Vec<u8> {
    v.to_le_bytes().to_vec()
}

fn le64(v: u64) -> Vec<u8> {
    v.to_le_bytes().to_vec()
}

#[test]
fn write_gives_the_documented_bytes() {
    let mut tile_map = TileMap::new((2, 1), 2);
    tile_map.set_tile((1, 0), 1, 0x0102_0304).unwrap();
    let mut out = Vec::new();
    assert_eq!(tile_map.write(&mut out), Ok(()));

    let mut expected = Vec::new();
    expected.extend(le64(2)); // number of layers in the list
    expected.extend(le64(2)); // layer 0
    expected.extend(le32(2));
    expected.extend(le32(2));
    expected.extend(le64(2)); // layer 1
    expected.extend(le32(0));
    expected.extend(le32(0x0102_0304));
    expected.extend(le32(2)); // width
    expected.extend(le32(1)); // height
    expected.extend(le32(2)); // layer count
    assert_eq!(out, expected);
}

#[test]
fn write_appends_to_what_is_there() {
    let tile_map = TileMap::new((1, 1), 1);
    let mut out = vec![0xAA, 0xBB];
    tile_map.write(&mut out).unwrap();
    assert_eq!(&out[..2], &[0xAA, 0xBB]);
    assert_eq!(out.len(), 2 + 8 + 8 + 4 + 12);
}

#[test]
fn round_trip_gives_back_the_map() {
    let mut tile_map = TileMap::new((5, 4), 3);
    tile_map.set_tile((0, 0), 0, 7).unwrap();
    tile_map.set_tile((4, 3), 2, 55).unwrap();
    tile_map.set_tile((2, 1), 1, u32::MAX).unwrap();
    let mut bytes = Vec::new();
    tile_map.write(&mut bytes).unwrap();

    let back = TileMap::try_from(&bytes[..]).unwrap();
    assert_eq!(back, tile_map);
    assert_eq!(back.size(), tile_map.size());
    assert_eq!(back.nb_layers(), 3);
    assert_eq!(back.get_tile((2, 1), 1), Some(u32::MAX));

    let mut again = Vec::new();
    back.write(&mut again).unwrap();
    assert_eq!(again, bytes);
}

#[test]
fn trailing_bytes_are_ignored() {
    let tile_map = TileMap::new((3, 3), 2);
    let mut bytes = Vec::new();
    tile_map.write(&mut bytes).unwrap();
    bytes.extend_from_slice(&[1, 2, 3, 4, 5]);
    assert_eq!(TileMap::try_from(&bytes[..]).unwrap(), tile_map);
}

#[test]
fn truncated_input_is_a_read_error() {
    let tile_map = TileMap::new((3, 3), 2);
    let mut bytes = Vec::new();
    tile_map.write(&mut bytes).unwrap();
    for cut in [0, 1, 8, 20, bytes.len() - 1] {
        assert_eq!(
            TileMap::try_from(&bytes[..cut]).err(),
            Some(TileMapError::ReadError)
        );
    }
}

#[test]
fn inconsistent_map_is_a_read_error() {
    // One layer of one cell, but the size says 2 by 1.
    let mut bytes = Vec::new();
    bytes.extend(le64(1));
    bytes.extend(le64(1));
    bytes.extend(le32(2));
    bytes.extend(le32(2));
    bytes.extend(le32(1));
    bytes.extend(le32(1));
    assert_eq!(TileMap::try_from(&bytes[..]).err(), Some(TileMapError::ReadError));

    // Layer count that disagrees with the number of layers.
    let mut bytes = Vec::new();
    bytes.extend(le64(1));
    bytes.extend(le64(1));
    bytes.extend(le32(2));
    bytes.extend(le32(1));
    bytes.extend(le32(1));
    bytes.extend(le32(2));
    assert_eq!(TileMap::try_from(&bytes[..]).err(), Some(TileMapError::ReadError));

    // No layer at all.
    let mut bytes = Vec::new();
    bytes.extend(le64(0));
    bytes.extend(le32(0));
    bytes.extend(le32(0));
    bytes.extend(le32(0));
    assert_eq!(TileMap::try_from(&bytes[..]).err(), Some(TileMapError::ReadError));
}

#[test]
fn hand_written_bytes_are_read() {
    let mut bytes = Vec::new();
    bytes.extend(le64(1));
    bytes.extend(le64(2));
    bytes.extend(le32(9));
    bytes.extend(le32(8));
    bytes.extend(le32(1));
    bytes.extend(le32(2));
    bytes.extend(le32(1));
    let tile_map = TileMap::try_from(&bytes[..]).unwrap();
    assert_eq!(tile_map.size().x, 1);
    assert_eq!(tile_map.size().y, 2);
    assert_eq!(tile_map.get_tile((0, 0), 0), Some(9));
    assert_eq!(tile_map.get_tile((0, 1), 0), Some(8));
}
