//! The viewport of a tile map: the pixel size of a tile, the pan applied by
//! the user, the mapping from world positions to cells, and the tile ids and
//! grid lines to draw.

use crate::tilemap::{layers_view, row_major, lemma_index_in_area, TileMap, TileMapError, TileMapView, Vector2u};
use vstd::prelude::*;

verus! {

/// A grid line from `(x0, y0)` to `(x1, y1)`, in world pixels.
#[derive(Clone, Copy, Debug, PartialEq, Eq, Structural)]
pub struct GridLine {
    pub x0: u64,
    pub y0: u64,
    pub x1: u64,
    pub y1: u64,
}

/// The edge of a tile in pixels when `desired` tiles must fit on `screen`:
/// the smaller of the two per-axis quotients, so that both axes fit.
pub open spec fn fit_tile_size(screen: (u32, u32), desired: (u32, u32)) -> u32
    recommends
        desired.0 > 0,
        desired.1 > 0,
{
    let w = screen.0 / desired.0;
    let h = screen.1 / desired.1;
    if w < h {
        w
    } else {
        h
    }
}

/// A row line for each row of cells, then a column line for each column.
pub open spec fn grid_lines(width: u32, height: u32, tile_size: u32) -> Seq<GridLine> {
    Seq::new(
        (height + width) as nat,
        |i: int|
            if i < height {
                GridLine {
                    x0: 0,
                    y0: (i * tile_size) as u64,
                    x1: (width * tile_size) as u64,
                    y1: (i * tile_size) as u64,
                }
            } else {
                GridLine {
                    x0: ((i - height) * tile_size) as u64,
                    y0: 0,
                    x1: ((i - height) * tile_size) as u64,
                    y1: (height * tile_size) as u64,
                }
            },
    )
}

/// A negative coordinate counts as 0.
pub open spec fn clamp_to_zero(v: int) -> int {
    if v < 0 {
        0
    } else {
        v
    }
}

/// The cell under world position `pos` when the view has been panned by
/// `pan`: the pan is undone, negative coordinates count as 0, each axis is
/// divided by the tile size, and a cell outside the map is no cell.
pub open spec fn cell_at(tile_size: u32, width: u32, height: u32, pan: (int, int), pos: (int, int)) -> Option<
    Vector2u,
> {
    if tile_size == 0 {
        None
    } else {
        let cx = clamp_to_zero(pos.0 + pan.0) / (tile_size as int);
        let cy = clamp_to_zero(pos.1 + pan.1) / (tile_size as int);
        if cx < width && cy < height {
            Some(Vector2u { x: cx as u32, y: cy as u32 })
        } else {
            None
        }
    }
}

/// The state of a renderer: the tile ids it draws, layer by layer in
/// row-major order, its grid, its tile size, the size of the map it shows
/// and the total pan.
pub struct RendererView {
    pub layers: Seq<Seq<u32>>,
    pub grid: Seq<GridLine>,
    pub show_grid: bool,
    pub tile_size: u32,
    pub map_width: u32,
    pub map_height: u32,
    pub pan: (int, int),
}

impl RendererView {
    pub open spec fn area(self) -> int {
        self.map_width * self.map_height
    }

    pub open spec fn valid(self) -> bool {
        &&& self.area() <= u32::MAX
        &&& forall|l: int| 0 <= l < self.layers.len() ==> #[trigger] self.layers[l].len() == self.area()
    }

    /// The renderer shows map `m` on `screen` with `desired` tiles visible.
    pub open spec fn shows(self, m: TileMapView, screen: (u32, u32), desired: (u32, u32)) -> bool {
        &&& self.layers == m.tiles
        &&& self.map_width == m.width
        &&& self.map_height == m.height
        &&& self.tile_size == fit_tile_size(screen, desired)
        &&& self.grid == grid_lines(m.width, m.height, self.tile_size)
    }

    pub open spec fn cell_at(self, pos: (int, int)) -> Option<Vector2u> {
        cell_at(self.tile_size, self.map_width, self.map_height, self.pan, pos)
    }

    /// The state after panning by `delta`.
    pub open spec fn panned(self, delta: (int, int)) -> RendererView {
        RendererView { pan: (self.pan.0 + delta.0, self.pan.1 + delta.1), ..self }
    }

    /// The top-left corner of cell `(x, y)` in world pixels, before any pan.
    pub open spec fn tile_origin(self, x: u32, y: u32) -> (int, int) {
        (x * self.tile_size, y * self.tile_size)
    }
}

/// Panning is additive: two pans in a row equal one pan by their sum, in
/// either order.
pub proof fn lemma_pan_additive(v: RendererView, a: (int, int), b: (int, int))
    ensures
        v.panned(a).panned(b) == v.panned((a.0 + b.0, a.1 + b.1)),
        v.panned(a).panned(b) == v.panned(b).panned(a),
{
}

/// Every pixel of the square drawn for a cell, shifted by the pan, maps
/// back to that cell.
pub proof fn lemma_cell_inverse(v: RendererView, x: u32, y: u32, dx: int, dy: int)
    requires
        v.tile_size > 0,
        x < v.map_width,
        y < v.map_height,
        0 <= dx < v.tile_size,
        0 <= dy < v.tile_size,
    ensures
        v.cell_at((v.tile_origin(x, y).0 + dx - v.pan.0, v.tile_origin(x, y).1 + dy - v.pan.1))
            == Some(Vector2u { x, y }),
{
    let t = v.tile_size as int;
    assert((x * t + dx) / t == x as int) by (nonlinear_arith)
        requires
            t > 0,
            0 <= dx < t,
            x >= 0,
    {
        vstd::arithmetic::div_mod::lemma_fundamental_div_mod_converse(x * t + dx, t, x as int, dx);
    }
    assert((y * t + dy) / t == y as int) by (nonlinear_arith)
        requires
            t > 0,
            0 <= dy < t,
            y >= 0,
    {
        vstd::arithmetic::div_mod::lemma_fundamental_div_mod_converse(y * t + dy, t, y as int, dy);
    }
    assert(x * t + dx >= 0 && y * t + dy >= 0) by (nonlinear_arith)
        requires
            t > 0,
            0 <= dx,
            0 <= dy,
            x >= 0,
            y >= 0,
    ;
}

/// The viewport and drawing state of a tile map.
pub struct TileMapRenderer {
    /// The ids to draw, one vector per layer, in row-major order.
    layers: Vec<Vec<u32>>,
    grid: Vec<GridLine>,
    show_grid: bool,
    tile_size: u32,
    map_size: Vector2u,
    /// The total pan applied to the view since creation.
    pan: (i64, i64),
}

impl View for TileMapRenderer {
    type V = RendererView;

    closed spec fn view(&self) -> RendererView {
        RendererView {
            layers: layers_view(self.layers@),
            grid: self.grid@,
            show_grid: self.show_grid,
            tile_size: self.tile_size,
            map_width: self.map_size.x,
            map_height: self.map_size.y,
            pan: (self.pan.0 as int, self.pan.1 as int),
        }
    }
}

/// A copy of each layer.
fn copy_layers(tiles: &Vec<Vec<u32>>) -> (r: Vec<Vec<u32>>)
    ensures
        layers_view(r@) == layers_view(tiles@),
{
    let mut out: Vec<Vec<u32>> = Vec::with_capacity(tiles.len());
    let mut l: usize = 0;
    while l < tiles.len()
        invariant
            l <= tiles@.len(),
            layers_view(out@) == layers_view(tiles@).subrange(0, l as int),
        decreases tiles@.len() - l,
    {
        let src = &tiles[l];
        let mut layer: Vec<u32> = Vec::with_capacity(src.len());
        let mut i: usize = 0;
        while i < src.len()
            invariant
                i <= src@.len(),
                layer@ == src@.subrange(0, i as int),
            decreases src@.len() - i,
        {
            layer.push(src[i]);
            i += 1;
            assert(layer@ =~= src@.subrange(0, i as int));
        }
        assert(layer@ =~= src@);
        let ghost prev = out@;
        out.push(layer);
        assert(layers_view(out@) =~= layers_view(prev).push(layer@));
        l += 1;
        assert(layers_view(out@) =~= layers_view(tiles@).subrange(0, l as int));
    }
    assert(layers_view(tiles@).subrange(0, l as int) =~= layers_view(tiles@));
    out
}

/// The grid lines of a `width` by `height` map with tiles of `tile_size`.
fn build_grid(width: u32, height: u32, tile_size: u32) -> (r: Vec<GridLine>)
    ensures
        r@ == grid_lines(width, height, tile_size),
{
    let ghost all = grid_lines(width, height, tile_size);
    assert(width as u64 * tile_size as u64 <= u64::MAX) by (nonlinear_arith);
    assert(height as u64 * tile_size as u64 <= u64::MAX) by (nonlinear_arith);
    let full_width = width as u64 * tile_size as u64;
    let full_height = height as u64 * tile_size as u64;
    let mut grid: Vec<GridLine> = Vec::new();
    let mut y: u32 = 0;
    while y < height
        invariant
            y <= height,
            all == grid_lines(width, height, tile_size),
            full_width == width * tile_size,
            grid@ == all.subrange(0, y as int),
        decreases height - y,
    {
        assert(y as u64 * tile_size as u64 <= u64::MAX) by (nonlinear_arith);
        let at = y as u64 * tile_size as u64;
        grid.push(GridLine { x0: 0, y0: at, x1: full_width, y1: at });
        y += 1;
        assert(grid@ =~= all.subrange(0, y as int));
    }
    let mut x: u32 = 0;
    while x < width
        invariant
            x <= width,
            all == grid_lines(width, height, tile_size),
            full_height == height * tile_size,
            grid@ == all.subrange(0, height + x),
        decreases width - x,
    {
        assert(x as u64 * tile_size as u64 <= u64::MAX) by (nonlinear_arith);
        let at = x as u64 * tile_size as u64;
        grid.push(GridLine { x0: at, y0: 0, x1: at, y1: full_height });
        x += 1;
        assert(grid@ =~= all.subrange(0, height + x));
    }
    assert(all.subrange(0, height + width) =~= all);
    grid
}

impl TileMapRenderer {
    pub open spec fn wf(&self) -> bool {
        self@.valid()
    }

    /// Creates the viewport of `tile_map` on a screen of `screen_size` pixels,
    /// sized so that `viewport_size` tiles fit on it, with no pan. Fails with
    /// `InvalidViewportSize` when `viewport_size` has a zero component.
    pub fn new(tile_map: &TileMap, screen_size: (u32, u32), viewport_size: (u32, u32), show_grid: bool) -> (r:
        Result<TileMapRenderer, TileMapError>)
        requires
            tile_map.wf(),
        ensures
            r is Err <==> viewport_size.0 == 0 || viewport_size.1 == 0,
            r is Err ==> r == Err::<TileMapRenderer, TileMapError>(TileMapError::InvalidViewportSize),
            r matches Ok(rd) ==> {
                &&& rd.wf()
                &&& rd@.shows(tile_map@, screen_size, viewport_size)
                &&& rd@.pan == (0int, 0int)
                &&& rd@.show_grid == show_grid
            },
    {
        let mut renderer = TileMapRenderer {
            layers: Vec::new(),
            grid: Vec::new(),
            show_grid,
            tile_size: 0,
            map_size: Vector2u { x: 0, y: 0 },
            pan: (0, 0),
        };
        match renderer.update(tile_map, screen_size, viewport_size) {
            Ok(()) => Ok(renderer),
            Err(e) => Err(e),
        }
    }

    /// Pans the view by `offset` world pixels.
    pub fn move_(&mut self, offset: (i64, i64))
        requires
            i64::MIN <= old(self)@.pan.0 + offset.0 <= i64::MAX,
            i64::MIN <= old(self)@.pan.1 + offset.1 <= i64::MAX,
        ensures
            final(self)@ == old(self)@.panned((offset.0 as int, offset.1 as int)),
    {
        self.pan = (self.pan.0 + offset.0, self.pan.1 + offset.1);
    }

    /// The cell under `world_pos`, or `None` when it lies outside the map.
    pub fn get_tile_position(&self, world_pos: (i64, i64)) -> (r: Option<Vector2u>)
        ensures
            r == self@.cell_at((world_pos.0 as int, world_pos.1 as int)),
    {
        if self.tile_size == 0 {
            return None;
        }
        let sx = world_pos.0 as i128 + self.pan.0 as i128;
        let sy = world_pos.1 as i128 + self.pan.1 as i128;
        let rx: u64 = if sx < 0 {
            0
        } else {
            sx as u64
        };
        let ry: u64 = if sy < 0 {
            0
        } else {
            sy as u64
        };
        let cx = rx / self.tile_size as u64;
        let cy = ry / self.tile_size as u64;
        if cx < self.map_size.x as u64 && cy < self.map_size.y as u64 {
            Some(Vector2u { x: cx as u32, y: cy as u32 })
        } else {
            None
        }
    }

    /// Recomputes the viewport for `tile_map` on a screen of `screen_size`
    /// pixels with `viewport_size` tiles visible; the pan and the grid
    /// setting are kept. With a zero component in `viewport_size` it fails
    /// with `InvalidViewportSize` and changes nothing.
    pub fn update(&mut self, tile_map: &TileMap, screen_size: (u32, u32), viewport_size: (u32, u32)) -> (r:
        Result<(), TileMapError>)
        requires
            tile_map.wf(),
        ensures
            r is Err <==> viewport_size.0 == 0 || viewport_size.1 == 0,
            r is Err ==> r == Err::<(), TileMapError>(TileMapError::InvalidViewportSize) && final(self)@
                == old(self)@,
            r is Ok ==> {
                &&& final(self).wf()
                &&& final(self)@.shows(tile_map@, screen_size, viewport_size)
                &&& final(self)@.pan == old(self)@.pan
                &&& final(self)@.show_grid == old(self)@.show_grid
            },
    {
        if viewport_size.0 == 0 || viewport_size.1 == 0 {
            return Err(TileMapError::InvalidViewportSize);
        }
        let map_size = tile_map.size();
        let tile_width = screen_size.0 / viewport_size.0;
        let tile_height = screen_size.1 / viewport_size.1;
        let tile_size = if tile_width < tile_height {
            tile_width
        } else {
            tile_height
        };
        self.layers = copy_layers(tile_map.tiles());
        self.grid = build_grid(map_size.x, map_size.y, tile_size);
        self.map_size = map_size;
        self.tile_size = tile_size;
        Ok(())
    }

    /// Changes the id drawn at `position` on `layer`; the map itself is not
    /// touched.
    pub fn set_tile(&mut self, position: (u32, u32), layer: u32, tile: u32)
        requires
            old(self).wf(),
            position.0 < old(self)@.map_width,
            position.1 < old(self)@.map_height,
            layer < old(self)@.layers.len(),
        ensures
            final(self).wf(),
            final(self)@ == (RendererView {
                layers: old(self)@.layers.update(
                    layer as int,
                    old(self)@.layers[layer as int].update(
                        row_major(position.0 as int, position.1 as int, old(self)@.map_width as int),
                        tile,
                    ),
                ),
                ..old(self)@
            }),
    {
        let ghost before = self@;
        proof {
            lemma_index_in_area(position.0 as int, position.1 as int, self.map_size.x as int, self.map_size.y as int);
        }
        let index = (position.0 + position.1 * self.map_size.x) as usize;
        assert(before.layers[layer as int].len() == before.area());
        let mut row: Vec<u32> = Vec::new();
        self.layers.set_and_swap(layer as usize, &mut row);
        assert(row@ == before.layers[layer as int]);
        row.set(index, tile);
        self.layers.set_and_swap(layer as usize, &mut row);
        assert(self@.layers =~= before.layers.update(
            layer as int,
            before.layers[layer as int].update(
                row_major(position.0 as int, position.1 as int, before.map_width as int),
                tile,
            ),
        ));
    }

    /// Shows or hides the grid.
    pub fn set_show_grid(&mut self, show: bool)
        ensures
            final(self)@ == (RendererView { show_grid: show, ..old(self)@ }),
    {
        self.show_grid = show;
    }

    /// Whether the grid is shown.
    pub fn show_grid(&self) -> (r: bool)
        ensures
            r == self@.show_grid,
    {
        self.show_grid
    }

    /// The edge of a tile in pixels.
    pub fn tile_size(&self) -> (r: u32)
        ensures
            r == self@.tile_size,
    {
        self.tile_size
    }

    /// The size of the map shown, in cells.
    pub fn map_size(&self) -> (r: Vector2u)
        ensures
            r.x == self@.map_width,
            r.y == self@.map_height,
    {
        self.map_size
    }

    /// The total pan since creation, in world pixels.
    pub fn pan_offset(&self) -> (r: (i64, i64))
        ensures
            r.0 == self@.pan.0,
            r.1 == self@.pan.1,
    {
        self.pan
    }

    /// The ids to draw, one vector per layer in row-major order.
    pub fn layers(&self) -> (r: &Vec<Vec<u32>>)
        ensures
            layers_view(r@) == self@.layers,
    {
        &self.layers
    }

    /// The grid lines, rows first.
    pub fn grid(&self) -> (r: &Vec<GridLine>)
        ensures
            r@ == self@.grid,
    {
        &self.grid
    }

    /// The top-left corner of cell `(x, y)` in world pixels, before any pan.
    pub fn tile_origin(&self, x: u32, y: u32) -> (r: (u64, u64))
        ensures
            r.0 == self@.tile_origin(x, y).0,
            r.1 == self@.tile_origin(x, y).1,
    {
        assert(x as u64 * self.tile_size as u64 <= u64::MAX) by (nonlinear_arith);
        assert(y as u64 * self.tile_size as u64 <= u64::MAX) by (nonlinear_arith);
        (x as u64 * self.tile_size as u64, y as u64 * self.tile_size as u64)
    }
}

} // verus!
