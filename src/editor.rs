//! Rules of the map editor: which layer a tile goes on, how a click paints
//! the map and its viewport together, and how the zoom steps.

use crate::renderer::{RendererView, TileMapRenderer};
use crate::tilemap::{TileMap, TileMapError, TileMapView, EMPTY_TILE};
use vstd::prelude::*;

verus! {

/// Tile ids below this value are ground tiles; the others are objects.
pub const FIRST_OBJECT_TILE: u32 = 50;

/// The layer that a tile id is placed on: ground tiles on layer 0, the
/// others on layer 1.
pub open spec fn tile_layer(tile_id: u32) -> u32 {
    if tile_id < FIRST_OBJECT_TILE {
        0
    } else {
        1
    }
}

/// Returns the layer that `tile_id` is drawn on.
pub fn get_tile_layer(tile_id: u32) -> (r: u32)
    ensures
        r == tile_layer(tile_id),
{
    if tile_id < FIRST_OBJECT_TILE {
        0
    } else {
        1
    }
}

/// The viewport draws exactly the map's tiles over the map's size.
pub open spec fn in_sync(m: TileMapView, r: RendererView) -> bool {
    &&& r.layers == m.tiles
    &&& r.map_width == m.width
    &&& r.map_height == m.height
}

/// The outcome of painting at `(x, y)`: the position is checked first, then
/// that the map has the two layers that painting may touch.
pub open spec fn paint_outcome(m: TileMapView, x: u32, y: u32) -> Result<(), TileMapError> {
    if !m.in_bounds(x, y) {
        Err(TileMapError::InvalidPosition)
    } else if m.layer_count < 2 {
        Err(TileMapError::InvalidLayer)
    } else {
        Ok(())
    }
}

/// The map after painting `tile_id` at `(x, y)`: the tile goes on its
/// layer, and a ground tile also clears what stood on layer 1 there.
pub open spec fn painted(m: TileMapView, x: u32, y: u32, tile_id: u32) -> TileMapView {
    let layer = tile_layer(tile_id);
    let placed = m.with_tile(x, y, layer, tile_id);
    if layer == 0 {
        placed.with_tile(x, y, 1, EMPTY_TILE)
    } else {
        placed
    }
}

/// Paints `tile_id` at `position` on the map and on its viewport, keeping
/// the two in step. On an error neither is changed.
pub fn paint(tile_map: &mut TileMap, renderer: &mut TileMapRenderer, position: (u32, u32), tile_id: u32) -> (r:
    Result<(), TileMapError>)
    requires
        old(tile_map).wf(),
        old(renderer).wf(),
        in_sync(old(tile_map)@, old(renderer)@),
    ensures
        final(tile_map).wf(),
        final(renderer).wf(),
        r == paint_outcome(old(tile_map)@, position.0, position.1),
        r is Ok ==> final(tile_map)@ == painted(old(tile_map)@, position.0, position.1, tile_id),
        r is Err ==> final(tile_map)@ == old(tile_map)@,
        final(renderer)@ == (RendererView { layers: final(tile_map)@.tiles, ..old(renderer)@ }),
{
    if tile_map.compute_index(position).is_none() {
        return Err(TileMapError::InvalidPosition);
    }
    if tile_map.nb_layers() < 2 {
        return Err(TileMapError::InvalidLayer);
    }
    let ghost r0 = renderer@;
    let layer = get_tile_layer(tile_id);
    let placed = tile_map.set_tile(position, layer, tile_id);
    assert(placed is Ok);
    renderer.set_tile(position, layer, tile_id);
    assert(renderer@.layers =~= tile_map@.tiles);
    if layer == 0 {
        let cleared = tile_map.set_tile(position, 1, EMPTY_TILE);
        assert(cleared is Ok);
        renderer.set_tile(position, 1, EMPTY_TILE);
        assert(renderer@.layers =~= tile_map@.tiles);
    }
    assert(renderer@ == (RendererView { layers: tile_map@.tiles, ..r0 }));
    Ok(())
}

/// One step of zooming in: one tile fewer along each axis, never below one.
pub fn zoom_in(viewport_size: (u32, u32)) -> (r: (u32, u32))
    ensures
        r == (if viewport_size.0 > 1 && viewport_size.1 > 1 {
            ((viewport_size.0 - 1) as u32, (viewport_size.1 - 1) as u32)
        } else {
            viewport_size
        }),
{
    if viewport_size.0 > 1 && viewport_size.1 > 1 {
        (viewport_size.0 - 1, viewport_size.1 - 1)
    } else {
        viewport_size
    }
}

/// One step of zooming out: one tile more along each axis, while both fit.
pub fn zoom_out(viewport_size: (u32, u32)) -> (r: (u32, u32))
    ensures
        r == (if viewport_size.0 < u32::MAX && viewport_size.1 < u32::MAX {
            ((viewport_size.0 + 1) as u32, (viewport_size.1 + 1) as u32)
        } else {
            viewport_size
        }),
{
    if viewport_size.0 < u32::MAX && viewport_size.1 < u32::MAX {
        (viewport_size.0 + 1, viewport_size.1 + 1)
    } else {
        viewport_size
    }
}

} // verus!
