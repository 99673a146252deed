//! The layered tile grid: construction, bounds-checked access and its
//! mathematical model.

use crate::codec::{
    decodes, deserialize_parts, encoding_of, lemma_encoding_unique, lengths_fit, readable,
    serialize_parts,
};
use vstd::prelude::*;

verus! {

/// The id that layer 0 is filled with when a map is created.
pub const GROUND_TILE: u32 = 2;

/// The id that means "nothing here" on every layer but the first.
pub const EMPTY_TILE: u32 = 0;

/// A pair of cell coordinates, or a width and a height counted in cells.
#[derive(Clone, Copy, Debug, PartialEq, Eq, Structural)]
pub struct Vector2u {
    pub x: u32,
    pub y: u32,
}

impl From<(u32, u32)> for Vector2u {
    fn from(v: (u32, u32)) -> Vector2u {
        Vector2u { x: v.0, y: v.1 }
    }
}

impl vstd::std_specs::convert::FromSpecImpl<(u32, u32)> for Vector2u {
    open spec fn obeys_from_spec() -> bool {
        true
    }

    open spec fn from_spec(v: (u32, u32)) -> Vector2u {
        Vector2u { x: v.0, y: v.1 }
    }
}

/// What can go wrong when a map is edited, stored, loaded or viewed.
#[derive(Clone, Copy, Debug, PartialEq, Eq, Structural)]
pub enum TileMapError {
    /// The position lies outside the grid.
    InvalidPosition,
    /// The layer index is not below the number of layers.
    InvalidLayer,
    /// The map could not be encoded.
    WriteError,
    /// The bytes do not hold a well-formed map.
    ReadError,
    /// A viewport was asked to show zero tiles along an axis.
    InvalidViewportSize,
}

/// The value of a map: its layers, each a row-major sequence of tile ids,
/// its size in cells and its number of layers.
pub struct TileMapView {
    pub tiles: Seq<Seq<u32>>,
    pub width: u32,
    pub height: u32,
    pub layer_count: u32,
}

/// The contents of each layer vector.
pub open spec fn layers_view(tiles: Seq<Vec<u32>>) -> Seq<Seq<u32>> {
    tiles.map_values(|l: Vec<u32>| l@)
}

/// Row-major position of cell `(x, y)` in a grid `width` cells wide.
pub open spec fn row_major(x: int, y: int, width: int) -> int {
    x + y * width
}

/// The id a freshly created map holds on `layer`.
pub open spec fn seed_tile(layer: int) -> u32 {
    if layer == 0 {
        GROUND_TILE
    } else {
        EMPTY_TILE
    }
}

/// The map `TileMap::new` builds: layer 0 all ground, every other layer empty.
pub open spec fn seeded(width: u32, height: u32, layer_count: u32) -> TileMapView {
    TileMapView {
        tiles: Seq::new(
            layer_count as nat,
            |l: int| Seq::new((width * height) as nat, |i: int| seed_tile(l)),
        ),
        width,
        height,
        layer_count,
    }
}

impl TileMapView {
    pub open spec fn area(self) -> int {
        self.width * self.height
    }

    /// Each of the `layer_count >= 1` layers holds one id per cell.
    pub open spec fn valid(self) -> bool {
        &&& self.layer_count >= 1
        &&& self.tiles.len() == self.layer_count
        &&& self.area() <= u32::MAX
        &&& forall|l: int| 0 <= l < self.tiles.len() ==> #[trigger] self.tiles[l].len() == self.area()
    }

    pub open spec fn in_bounds(self, x: u32, y: u32) -> bool {
        x < self.width && y < self.height
    }

    /// The index of a cell within a layer.
    pub open spec fn index(self, x: u32, y: u32) -> Option<usize> {
        if self.in_bounds(x, y) {
            Some(row_major(x as int, y as int, self.width as int) as usize)
        } else {
            None
        }
    }

    /// The id at `(x, y)` on `layer`, if both exist.
    pub open spec fn tile_at(self, x: u32, y: u32, layer: u32) -> Option<u32> {
        if self.in_bounds(x, y) && layer < self.layer_count {
            Some(self.tiles[layer as int][row_major(x as int, y as int, self.width as int)])
        } else {
            None
        }
    }

    /// The outcome of writing a tile: the position is checked before the layer.
    pub open spec fn set_outcome(self, x: u32, y: u32, layer: u32) -> Result<(), TileMapError> {
        if !self.in_bounds(x, y) {
            Err(TileMapError::InvalidPosition)
        } else if layer >= self.layer_count {
            Err(TileMapError::InvalidLayer)
        } else {
            Ok(())
        }
    }

    /// The map with the id at `(x, y)` on `layer` replaced by `tile`.
    pub open spec fn with_tile(self, x: u32, y: u32, layer: u32, tile: u32) -> TileMapView {
        let i = row_major(x as int, y as int, self.width as int);
        TileMapView {
            tiles: self.tiles.update(layer as int, self.tiles[layer as int].update(i, tile)),
            ..self
        }
    }
}

/// The cell index of a row-major grid stays below its area.
pub proof fn lemma_index_in_area(x: int, y: int, width: int, height: int)
    requires
        0 <= x < width,
        0 <= y < height,
    ensures
        0 <= row_major(x, y, width) < width * height,
{
    assert(0 <= row_major(x, y, width) < width * height) by (nonlinear_arith)
        requires
            0 <= x < width,
            0 <= y < height,
    ;
}

/// Whether decoded parts form a well-formed map.
fn parts_valid(tiles: &Vec<Vec<u32>>, width: u32, height: u32, layer_count: u32) -> (r: bool)
    ensures
        r == (TileMapView { tiles: layers_view(tiles@), width, height, layer_count }).valid(),
{
    let ghost v = TileMapView { tiles: layers_view(tiles@), width, height, layer_count };
    if layer_count < 1 || tiles.len() != layer_count as usize {
        return false;
    }
    assert(width as u64 * height as u64 <= u64::MAX) by (nonlinear_arith);
    let area = width as u64 * height as u64;
    if area > u32::MAX as u64 {
        return false;
    }
    let mut l: usize = 0;
    while l < tiles.len()
        invariant
            l <= tiles@.len(),
            v == (TileMapView { tiles: layers_view(tiles@), width, height, layer_count }),
            v.tiles.len() == tiles@.len(),
            area == v.area(),
            forall|k: int| 0 <= k < l ==> #[trigger] v.tiles[k].len() == v.area(),
        decreases tiles@.len() - l,
    {
        if tiles[l].len() as u64 != area {
            assert(v.tiles[l as int].len() != v.area());
            return false;
        }
        l += 1;
    }
    true
}

/// Every well-formed map has lengths that fit a `usize`.
proof fn lemma_valid_lengths_fit(v: TileMapView)
    requires
        v.valid(),
    ensures
        lengths_fit(v.tiles),
{
    assert forall|l: int| 0 <= l < v.tiles.len() implies #[trigger] v.tiles[l].len() <= usize::MAX by {
        assert(v.tiles[l].len() == v.area());
    }
}

/// Round trip: the encoding of a well-formed map can be read, the only map
/// read back from it is that map, and encoding that map again gives the same
/// bytes.
pub proof fn lemma_round_trip(v: TileMapView)
    requires
        v.valid(),
    ensures
        readable(encoding_of(v)),
        forall|m: TileMapView| #[trigger] decodes(encoding_of(v), m) ==> m == v && encoding_of(m) == encoding_of(v),
{
    lemma_valid_lengths_fit(v);
    let s = encoding_of(v);
    assert(s.subrange(0, s.len() as int) =~= s);
    assert(decodes(s, v));
    assert forall|m: TileMapView| #[trigger] decodes(s, m) implies m == v by {
        lemma_valid_lengths_fit(m);
        lemma_encoding_unique(m.tiles, m.width, m.height, m.layer_count, v.tiles, v.width, v.height, v.layer_count, s);
    }
}

/// Reading a cell just written on a valid layer gives the id written, the
/// map stays well-formed, and every other cell keeps its id.
pub proof fn lemma_set_then_get(v: TileMapView, x: u32, y: u32, layer: u32, tile: u32)
    requires
        v.valid(),
        x < v.width,
        y < v.height,
        layer < v.layer_count,
    ensures
        v.with_tile(x, y, layer, tile).valid(),
        v.with_tile(x, y, layer, tile).tile_at(x, y, layer) == Some(tile),
        forall|x2: u32, y2: u32, l2: u32|
            !(x2 == x && y2 == y && l2 == layer) ==> #[trigger] v.with_tile(x, y, layer, tile).tile_at(x2, y2, l2)
                == v.tile_at(x2, y2, l2),
{
    lemma_index_in_area(x as int, y as int, v.width as int, v.height as int);
    let w = v.with_tile(x, y, layer, tile);
    assert(w.tiles[layer as int].len() == v.area());
    assert forall|x2: u32, y2: u32, l2: u32|
        !(x2 == x && y2 == y && l2 == layer) implies #[trigger] w.tile_at(x2, y2, l2) == v.tile_at(x2, y2, l2) by {
        if v.in_bounds(x2, y2) && l2 < v.layer_count {
            lemma_index_in_area(x2 as int, y2 as int, v.width as int, v.height as int);
            if l2 == layer && row_major(x2 as int, y2 as int, v.width as int) == row_major(
                x as int,
                y as int,
                v.width as int,
            ) {
                lemma_row_major_injective(x as int, y as int, x2 as int, y2 as int, v.width as int);
            }
        }
    }
}

/// Outside the grid there is no tile to read, and a write fails with
/// `InvalidPosition` whatever the layer, before the layer is looked at.
pub proof fn lemma_out_of_bounds(v: TileMapView, x: u32, y: u32, layer: u32)
    requires
        x >= v.width || y >= v.height,
    ensures
        v.tile_at(x, y, layer) is None,
        v.index(x, y) is None,
        v.set_outcome(x, y, layer) == Err::<(), TileMapError>(TileMapError::InvalidPosition),
{
}

proof fn lemma_row_major_injective(x1: int, y1: int, x2: int, y2: int, width: int)
    requires
        0 <= x1 < width,
        0 <= x2 < width,
        0 <= y1,
        0 <= y2,
        row_major(x1, y1, width) == row_major(x2, y2, width),
    ensures
        x1 == x2,
        y1 == y2,
{
    assert(y1 == y2) by (nonlinear_arith)
        requires
            0 <= x1 < width,
            0 <= x2 < width,
            0 <= y1,
            0 <= y2,
            x1 + y1 * width == x2 + y2 * width,
    {
        if y1 < y2 {
            assert(y1 * width + width <= y2 * width);
        } else if y2 < y1 {
            assert(y2 * width + width <= y1 * width);
        }
    }
}

/// Row-major indexing `x + y * width` maps the cells of a `width` by
/// `height` grid into `0 .. width * height`, and distinct cells to distinct
/// indices.
pub proof fn lemma_index_bijection(width: u32, height: u32)
    ensures
        forall|x: u32, y: u32|
            x < width && y < height ==> 0 <= #[trigger] row_major(x as int, y as int, width as int) < width
                * height,
        forall|x1: u32, y1: u32, x2: u32, y2: u32|
            x1 < width && y1 < height && x2 < width && y2 < height && #[trigger] row_major(
                x1 as int,
                y1 as int,
                width as int,
            ) == #[trigger] row_major(x2 as int, y2 as int, width as int) ==> x1 == x2 && y1 == y2,

{
    assert forall|x: u32, y: u32| x < width && y < height implies 0 <= #[trigger] row_major(
        x as int,
        y as int,
        width as int,
    ) < width * height by {
        lemma_index_in_area(x as int, y as int, width as int, height as int);
    }
    assert forall|x1: u32, y1: u32, x2: u32, y2: u32|
        x1 < width && y1 < height && x2 < width && y2 < height && #[trigger] row_major(
            x1 as int,
            y1 as int,
            width as int,
        ) == #[trigger] row_major(x2 as int, y2 as int, width as int) implies x1 == x2 && y1 == y2 by {
        lemma_row_major_injective(x1 as int, y1 as int, x2 as int, y2 as int, width as int);
    }
}

/// Every index in `0 .. w * h` is the row-major index of the cell
/// `(i % w, i / w)` of a `w` by `h` grid.
pub proof fn lemma_index_onto(i: int, w: int, h: int)
    requires
        0 <= i < w * h,
        h >= 0,
    ensures
        0 <= i % w < w,
        0 <= i / w < h,
        row_major(i % w, i / w, w) == i,
{
    assert(w > 0) by (nonlinear_arith)
        requires
            0 <= i < w * h,
            h >= 0,
    ;
    vstd::arithmetic::div_mod::lemma_fundamental_div_mod(i, w);
    vstd::arithmetic::div_mod::lemma_mod_bound(i, w);
    assert(i / w >= 0) by (nonlinear_arith)
        requires
            0 <= i,
            w > 0,
    ;
    assert(i / w < h) by (nonlinear_arith)
        requires
            0 <= i < w * h,
            w > 0,
            i == w * (i / w) + i % w,
            0 <= i % w,
    {
        if i / w >= h {
            assert(w * (i / w) >= w * h);
        }
    }
    assert((i / w) * w == w * (i / w)) by (nonlinear_arith);
}

/// A grid of tile ids, stacked in layers.
#[derive(Debug)]
pub struct TileMap {
    /// One vector per layer, each holding the ids in row-major order.
    tiles: Vec<Vec<u32>>,
    size: Vector2u,
    nb_layers: u32,
}

impl View for TileMap {
    type V = TileMapView;

    closed spec fn view(&self) -> TileMapView {
        TileMapView {
            tiles: layers_view(self.tiles@),
            width: self.size.x,
            height: self.size.y,
            layer_count: self.nb_layers,
        }
    }
}

/// A layer of `len` cells all holding `tile`.
fn filled_layer(len: usize, tile: u32) -> (r: Vec<u32>)
    ensures
        r@ == Seq::new(len as nat, |i: int| tile),
{
    let mut layer: Vec<u32> = Vec::with_capacity(len);
    let mut i: usize = 0;
    while i < len
        invariant
            i <= len,
            layer@ == Seq::new(i as nat, |k: int| tile),
        decreases len - i,
    {
        layer.push(tile);
        i += 1;
        assert(layer@ =~= Seq::new(i as nat, |k: int| tile));
    }
    layer
}

/// Whether two layer lists hold the same ids.
fn same_layers(a: &Vec<Vec<u32>>, b: &Vec<Vec<u32>>) -> (r: bool)
    ensures
        r == (layers_view(a@) == layers_view(b@)),
{
    if a.len() != b.len() {
        assert(layers_view(a@).len() != layers_view(b@).len());
        return false;
    }
    let mut l: usize = 0;
    while l < a.len()
        invariant
            l <= a@.len(),
            a@.len() == b@.len(),
            forall|k: int| 0 <= k < l ==> #[trigger] a@[k]@ == b@[k]@,
        decreases a@.len() - l,
    {
        let la = &a[l];
        let lb = &b[l];
        if la.len() != lb.len() {
            assert(layers_view(a@)[l as int] != layers_view(b@)[l as int]);
            return false;
        }
        let mut i: usize = 0;
        while i < la.len()
            invariant
                i <= la@.len(),
                l < a@.len(),
                a@.len() == b@.len(),
                la@ == a@[l as int]@,
                lb@ == b@[l as int]@,
                la@.len() == lb@.len(),
                forall|k: int| 0 <= k < i ==> la@[k] == lb@[k],
            decreases la@.len() - i,
        {
            if la[i] != lb[i] {
                assert(layers_view(a@)[l as int][i as int] != layers_view(b@)[l as int][i as int]);
                return false;
            }
            i += 1;
        }
        assert(la@ =~= lb@);
        l += 1;
    }
    assert(layers_view(a@) =~= layers_view(b@));
    true
}

impl PartialEq for TileMap {
    fn eq(&self, other: &TileMap) -> (r: bool) {
        self.size.x == other.size.x && self.size.y == other.size.y && self.nb_layers == other.nb_layers
            && same_layers(&self.tiles, &other.tiles)
    }
}

impl vstd::std_specs::cmp::PartialEqSpecImpl for TileMap {
    open spec fn obeys_eq_spec() -> bool {
        true
    }

    open spec fn eq_spec(&self, other: &TileMap) -> bool {
        self@ == other@
    }
}

impl TileMap {
    pub open spec fn wf(&self) -> bool {
        self@.valid()
    }

    /// Creates a map of `size.0` by `size.1` cells with `nb_layers` layers:
    /// layer 0 is filled with the ground tile, the others are empty.
    pub fn new(size: (u32, u32), nb_layers: u32) -> (r: TileMap)
        requires
            size.0 * size.1 <= u32::MAX,
            nb_layers >= 1,
        ensures
            r.wf(),
            r@ == seeded(size.0, size.1, nb_layers),
    {
        let area = size.0 * size.1;
        let ghost target = seeded(size.0, size.1, nb_layers);
        let mut tiles: Vec<Vec<u32>> = Vec::with_capacity(nb_layers as usize);
        let mut l: u32 = 0;
        while l < nb_layers
            invariant
                l <= nb_layers,
                area == size.0 * size.1,
                target == seeded(size.0, size.1, nb_layers),
                layers_view(tiles@) == target.tiles.subrange(0, l as int),
            decreases nb_layers - l,
        {
            let fill = if l == 0 {
                GROUND_TILE
            } else {
                EMPTY_TILE
            };
            let layer = filled_layer(area as usize, fill);
            assert(layer@ =~= target.tiles[l as int]);
            let ghost prev = tiles@;
            tiles.push(layer);
            assert(layers_view(tiles@) =~= layers_view(prev).push(layer@));
            l += 1;
            assert(layers_view(tiles@) =~= target.tiles.subrange(0, l as int));
        }
        assert(target.tiles.subrange(0, nb_layers as int) =~= target.tiles);
        TileMap { tiles, size: Vector2u { x: size.0, y: size.1 }, nb_layers }
    }

    /// The index within a layer of the cell at `position`, or `None` when
    /// the position lies outside the grid.
    pub fn compute_index(&self, position: (u32, u32)) -> (r: Option<usize>)
        requires
            self.wf(),
        ensures
            r == self@.index(position.0, position.1),
    {
        if position.0 >= self.size.x || position.1 >= self.size.y {
            return None;
        }
        proof {
            lemma_index_in_area(position.0 as int, position.1 as int, self.size.x as int, self.size.y as int);
        }
        Some((position.0 + position.1 * self.size.x) as usize)
    }

    /// The id at `position` on `layer`, or `None` when either does not exist.
    pub fn get_tile(&self, position: (u32, u32), layer: u32) -> (r: Option<u32>)
        requires
            self.wf(),
        ensures
            r == self@.tile_at(position.0, position.1, layer),
    {
        let index = match self.compute_index(position) {
            Some(i) => i,
            None => return None,
        };
        if layer >= self.nb_layers {
            return None;
        }
        proof {
            lemma_index_in_area(position.0 as int, position.1 as int, self.size.x as int, self.size.y as int);
        }
        Some(self.tiles[layer as usize][index])
    }

    /// Writes `tile` at `position` on `layer`. The position is checked first,
    /// then the layer; on an error the map is left as it was.
    pub fn set_tile(&mut self, position: (u32, u32), layer: u32, tile: u32) -> (r: Result<(), TileMapError>)
        requires
            old(self).wf(),
        ensures
            final(self).wf(),
            r == old(self)@.set_outcome(position.0, position.1, layer),
            r is Ok ==> final(self)@ == old(self)@.with_tile(position.0, position.1, layer, tile),
            r is Err ==> final(self)@ == old(self)@,
    {
        let index = match self.compute_index(position) {
            Some(i) => i,
            None => return Err(TileMapError::InvalidPosition),
        };
        if layer >= self.nb_layers {
            return Err(TileMapError::InvalidLayer);
        }
        proof {
            lemma_index_in_area(position.0 as int, position.1 as int, self.size.x as int, self.size.y as int);
        }
        let ghost before = self@;
        assert(before.tiles[layer as int].len() == before.area());
        let mut row: Vec<u32> = Vec::new();
        self.tiles.set_and_swap(layer as usize, &mut row);
        assert(row@ == before.tiles[layer as int]);
        row.set(index, tile);
        self.tiles.set_and_swap(layer as usize, &mut row);
        assert(self@.tiles =~= before.with_tile(position.0, position.1, layer, tile).tiles);
        Ok(())
    }

    /// Appends the binary form of the map to `out`. Encoding a well-formed
    /// map always succeeds.
    pub fn write(&self, out: &mut Vec<u8>) -> (r: Result<(), TileMapError>)
        requires
            self.wf(),
        ensures
            r == Ok::<(), TileMapError>(()),
            final(out)@ == old(out)@ + encoding_of(self@),
    {
        match serialize_parts(&self.tiles, self.size.x, self.size.y, self.nb_layers) {
            Ok(bytes) => {
                let mut bytes = bytes;
                out.append(&mut bytes);
                Ok(())
            },
            Err(_) => Err(TileMapError::WriteError),
        }
    }

    /// Reads a map from the front of `bytes`; bytes after it are ignored.
    /// Fails with `ReadError` exactly when no well-formed map can be read.
    pub fn try_from(bytes: &[u8]) -> (r: Result<TileMap, TileMapError>)
        ensures
            r matches Ok(m) ==> m.wf() && decodes(bytes@, m@),
            r is Err ==> r == Err::<TileMap, TileMapError>(TileMapError::ReadError) && !readable(bytes@),
    {
        let parts = deserialize_parts(bytes);
        let (tiles, size, layer_count) = match parts {
            Ok(p) => p,
            Err(_) => {
                proof {
                    if readable(bytes@) {
                        let v = choose|v: TileMapView| decodes(bytes@, v);
                        lemma_valid_lengths_fit(v);
                    }
                }
                return Err(TileMapError::ReadError);
            },
        };
        let valid = parts_valid(&tiles, size.0, size.1, layer_count);
        let ghost got = TileMapView { tiles: layers_view(tiles@), width: size.0, height: size.1, layer_count };
        if !valid {
            proof {
                if readable(bytes@) {
                    let v = choose|v: TileMapView| decodes(bytes@, v);
                    lemma_valid_lengths_fit(v);
                    assert(tiles@.len() == tiles.len());
                    assert forall|l: int| 0 <= l < got.tiles.len() implies #[trigger] got.tiles[l].len()
                        <= usize::MAX by {
                        assert(got.tiles[l] == tiles@[l]@);
                        assert(tiles@[l].len() == tiles@[l]@.len());
                    }
                    lemma_encoding_unique(got.tiles, got.width, got.height, got.layer_count, v.tiles, v.width, v.height, v.layer_count, bytes@);
                }
            }
            return Err(TileMapError::ReadError);
        }
        Ok(TileMap { tiles, size: Vector2u { x: size.0, y: size.1 }, nb_layers: layer_count })
    }

    /// The width and height of the grid in cells.
    pub fn size(&self) -> (r: Vector2u)
        ensures
            r.x == self@.width,
            r.y == self@.height,
    {
        self.size
    }

    /// The number of layers.
    pub fn nb_layers(&self) -> (r: u32)
        ensures
            r == self@.layer_count,
    {
        self.nb_layers
    }

    /// The layers, each holding one id per cell in row-major order.
    pub fn tiles(&self) -> (r: &Vec<Vec<u32>>)
        ensures
            layers_view(r@) == self@.tiles,
    {
        &self.tiles
    }
}

} // verus!
