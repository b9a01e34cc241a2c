use vstd::prelude::*;
use crate::quadrant::{
    axis_floor, axis_selector, cell_units, lemma_adjacent_quadrants_share_two_layers,
    layer_offset, matching_layer, quad_offset, quadrant_of, resolution_of, shared_layers, CameraOffset,
    Resolution, QUADRANTS,
};
use crate::tiling::{dims_for, required_dims, Dims, Extent};
use crate::window::{normalize, normalized, sample_in_range, NoiseWindow, WindowShape};

verus! {

/// Value of every cell of freshly allocated storage (white).
pub const BLANK: u8 = 255;

/// The overlay: `QUADRANTS` layers of `width` x `height` cells, one byte each,
/// stored layer by layer and row by row.
#[derive(Debug)]
pub struct OverlayBuffer {
    pub width: usize,
    pub height: usize,
    pub data: Vec<u8>,
    /// How many times backing storage was allocated (saturating).
    pub allocations: u64,
}

/// Position of cell `(x, y)` of `layer` in the storage of a `w` x `h` buffer.
pub open spec fn cell_index(w: int, h: int, layer: int, x: int, y: int) -> int {
    (layer * h + y) * w + x
}

/// `(layer, x, y)` names a cell of a `w` x `h` buffer.
pub open spec fn in_grid(w: int, h: int, layer: int, x: int, y: int) -> bool {
    0 <= layer < QUADRANTS && 0 <= x < w && 0 <= y < h
}

/// Buffers of these dimensions, and the noise window that fills them, can be
/// addressed on this machine.
pub open spec fn dims_fit(d: Dims) -> bool {
    &&& QUADRANTS * d.width * d.height <= usize::MAX
    &&& (d.width + 2) * (d.height + 2) <= usize::MAX
}

/// The lattice window that population of a `w` x `h` buffer reads: every lattice
/// point that some layer of some quadrant samples from `res`'s whole-tile offset.
pub open spec fn window_shape_for(res: Resolution, w: int, h: int) -> WindowShape {
    WindowShape {
        origin_x: (res.base_x - 1) as i64,
        origin_y: (res.base_y - 1) as i64,
        width: (w + 2) as usize,
        height: (h + 2) as usize,
    }
}

/// The value population writes to cell `(x, y)` of `layer`: the noise sample at
/// `(x + base_x + dx, y + base_y + dy)`, where `(dx, dy)` is the layer's offset in
/// the quadrant, normalized to the cell range.
pub open spec fn populated_cell(window: NoiseWindow, res: Resolution, layer: int, x: int, y: int) -> int {
    let o = quad_offset(res.quadrant as int, layer);
    normalized(window.at_lattice(x + res.base_x + o.0, y + res.base_y + o.1))
}

/// `populated_cell` for the cell stored at position `i` of a `w` x `h` buffer.
pub open spec fn populated_at(window: NoiseWindow, res: Resolution, w: int, h: int, i: int) -> int {
    let layer = i / (w * h);
    let rest = i % (w * h);
    populated_cell(window, res, layer, rest % w, rest / w)
}

/// A storage position decomposes back into its layer, row and column.
pub proof fn lemma_cell_index_decomposes(w: int, h: int, layer: int, x: int, y: int)
    requires
        w > 0,
        h > 0,
        layer >= 0,
        0 <= x < w,
        0 <= y < h,
    ensures
        cell_index(w, h, layer, x, y) / (w * h) == layer,
        (cell_index(w, h, layer, x, y) % (w * h)) / w == y,
        (cell_index(w, h, layer, x, y) % (w * h)) % w == x,
{
    let r = y * w + x;
    assert(r < w * h) by (nonlinear_arith)
        requires
            0 <= x < w,
            0 <= y < h,
            r == y * w + x;
    assert(0 <= r) by (nonlinear_arith)
        requires
            0 <= x,
            0 <= y,
            w > 0,
            r == y * w + x;
    assert(cell_index(w, h, layer, x, y) == layer * (w * h) + r) by (nonlinear_arith)
        requires
            r == y * w + x;
    vstd::arithmetic::div_mod::lemma_fundamental_div_mod_converse(cell_index(w, h, layer, x, y), w * h, layer, r);
    vstd::arithmetic::div_mod::lemma_fundamental_div_mod_converse(r, w, y, x);
}

/// Every cell of a grid has its storage position inside the storage.
pub proof fn lemma_cell_index_in_storage(w: int, h: int, layer: int, x: int, y: int)
    requires
        in_grid(w, h, layer, x, y),
    ensures
        0 <= cell_index(w, h, layer, x, y) < QUADRANTS * w * h,
        0 <= layer * h + y < QUADRANTS * w * h,
        0 <= (layer * h + y) * w <= cell_index(w, h, layer, x, y),
{
    assert(0 <= cell_index(w, h, layer, x, y) < QUADRANTS * w * h) by (nonlinear_arith)
        requires
            0 <= layer < QUADRANTS,
            0 <= x < w,
            0 <= y < h;
    assert(0 <= layer * h + y < QUADRANTS * w * h) by (nonlinear_arith)
        requires
            0 <= layer < QUADRANTS,
            0 <= x < w,
            0 <= y < h;
    assert(0 <= (layer * h + y) * w) by (nonlinear_arith)
        requires
            0 <= layer,
            0 <= y,
            0 <= h,
            0 <= w;
}

/// The whole storage of `b` holds what population from `window` for `res` writes.
pub open spec fn populated_from(b: OverlayBuffer, window: NoiseWindow, res: Resolution) -> bool {
    &&& b.data@.len() == QUADRANTS * b.width * b.height
    &&& forall|i: int| 0 <= i < b.data@.len()
        ==> #[trigger] b.data@[i] as int == populated_at(window, res, b.width as int, b.height as int, i)
}

/// Population is deterministic: two buffers of the same dimensions populated
/// from the same window for the same resolution hold identical bytes, whatever
/// they held before and whatever happened to them earlier.
pub proof fn lemma_population_is_deterministic(
    b1: OverlayBuffer,
    b2: OverlayBuffer,
    window: NoiseWindow,
    res: Resolution,
)
    requires
        b1.dims() == b2.dims(),
        populated_from(b1, window, res),
        populated_from(b2, window, res),
    ensures
        b1.data@ == b2.data@,
{
    assert(b1.width == b2.width && b1.height == b2.height);
    assert(b1.data@ =~= b2.data@);
}

/// Continuity across the middle of a tile. When the camera moves within one
/// whole tile (the same whole-tile offset on both axes) and the selector flips
/// on exactly one axis (on a non-negative offset: the half-tile mark is crossed),
/// the quadrant switches; yet two of the four layers of the new quadrant read
/// exactly the lattice samples that two layers of the old one read, so in those
/// layers every cell keeps its value.
pub proof fn lemma_half_tile_crossing_is_continuous(a: CameraOffset, b: CameraOffset, tile: Extent, window: NoiseWindow)
    requires
        tile.is_nonempty(),
        axis_floor(a.x as int, cell_units(tile.width)) == axis_floor(b.x as int, cell_units(tile.width)),
        axis_floor(a.y as int, cell_units(tile.height)) == axis_floor(b.y as int, cell_units(tile.height)),
        (axis_selector(a.x as int, cell_units(tile.width)) != axis_selector(b.x as int, cell_units(tile.width)))
            != (axis_selector(a.y as int, cell_units(tile.height)) != axis_selector(b.y as int, cell_units(tile.height))),
    ensures
        resolution_of(a, tile).quadrant != resolution_of(b, tile).quadrant,
        shared_layers(resolution_of(a, tile).quadrant as int, resolution_of(b, tile).quadrant as int) == 2,
        forall|layer: int, x: int, y: int|
            0 <= layer < QUADRANTS
                && matching_layer(resolution_of(a, tile).quadrant as int, resolution_of(b, tile).quadrant as int, layer) >= 0
                ==> #[trigger] populated_cell(window, resolution_of(a, tile), layer, x, y) == populated_cell(
                    window,
                    resolution_of(b, tile),
                    matching_layer(resolution_of(a, tile).quadrant as int, resolution_of(b, tile).quadrant as int, layer),
                    x,
                    y,
                ),
{
    let cx = cell_units(tile.width);
    let cy = cell_units(tile.height);
    let sx = axis_selector(a.x as int, cx);
    let sy = axis_selector(a.y as int, cy);
    let tx = axis_selector(b.x as int, cx);
    let ty = axis_selector(b.y as int, cy);
    lemma_adjacent_quadrants_share_two_layers(sx, sy, tx, ty);
    let ra = resolution_of(a, tile);
    let rb = resolution_of(b, tile);
    assert(ra.base_x == rb.base_x && ra.base_y == rb.base_y);
    assert(ra.quadrant as int == quadrant_of(sx, sy));
    assert(rb.quadrant as int == quadrant_of(tx, ty));
}

/// Whether buffers of dimensions `d` can be addressed on this machine.
pub fn fits_in_memory(d: Dims) -> (r: bool)
    ensures
        r == dims_fit(d),
{
    let w: u128 = d.width as u128;
    let h: u128 = d.height as u128;
    proof {
        assert(w * h <= u64::MAX * u64::MAX) by (nonlinear_arith)
            requires w <= u64::MAX, h <= u64::MAX;
        assert(QUADRANTS * d.width * d.height == (w * h) * 4) by (nonlinear_arith)
            requires w == d.width, h == d.height;
    }
    let cells: Option<u128> = (w * h).checked_mul(4);
    let window: Option<u128> = (w + 2).checked_mul(h + 2);
    match (cells, window) {
        (Some(c), Some(v)) => c <= usize::MAX as u128 && v <= usize::MAX as u128,
        _ => false,
    }
}

/// What `resize_for(viewport, tile)` does to a buffer `b` (becoming `b2`) and
/// returns (`r`).
pub open spec fn resize_post(b: OverlayBuffer, b2: OverlayBuffer, viewport: Extent, tile: Extent, r: Dims) -> bool {
    &&& r == dims_for(viewport, tile)
    &&& b2.dims() == r
    &&& b.dims() == r ==> b2 == b
    &&& b.dims() != r ==> {
        &&& b2.allocations == (if b.allocations == u64::MAX { u64::MAX as int } else { b.allocations + 1 })
        &&& forall|i: int| 0 <= i < b2.data@.len() ==> b2.data@[i] == BLANK
    }
}

/// Sizing is idempotent: a second `resize_for` with the same viewport and tile
/// changes nothing, so the two calls allocate at most once (exactly once when
/// the dimensions changed), and the dimensions are those the pair requires.
pub proof fn lemma_resize_idempotent(
    b0: OverlayBuffer,
    b1: OverlayBuffer,
    b2: OverlayBuffer,
    viewport: Extent,
    tile: Extent,
    d1: Dims,
    d2: Dims,
)
    requires
        resize_post(b0, b1, viewport, tile, d1),
        resize_post(b1, b2, viewport, tile, d2),
    ensures
        b2 == b1,
        d1 == d2,
        b2.dims() == dims_for(viewport, tile),
        b0.dims() == dims_for(viewport, tile) ==> b2.allocations == b0.allocations,
        b0.dims() != dims_for(viewport, tile) && b0.allocations < u64::MAX ==> b2.allocations == b0.allocations + 1,
{
}

impl OverlayBuffer {
    pub open spec fn wf(&self) -> bool {
        &&& self.data@.len() == QUADRANTS * self.width * self.height
        &&& QUADRANTS * self.width * self.height <= usize::MAX
        &&& (self.width + 2) * (self.height + 2) <= usize::MAX
    }

    pub open spec fn dims(&self) -> Dims {
        Dims { width: self.width as u64, height: self.height as u64 }
    }

    /// The value of cell `(x, y)` of `layer`.
    pub open spec fn cell(&self, layer: int, x: int, y: int) -> u8 {
        self.data@[cell_index(self.width as int, self.height as int, layer, x, y)]
    }

    /// An empty (zero-sized) buffer that has never been allocated.
    pub fn new() -> (r: OverlayBuffer)
        ensures
            r.wf(),
            r.width == 0,
            r.height == 0,
            r.allocations == 0,
    {
        proof {
            assert((0usize + 2) * (0usize + 2) == 4);
        }
        OverlayBuffer { width: 0, height: 0, data: Vec::new(), allocations: 0 }
    }

    pub fn width(&self) -> (r: usize)
        ensures
            r == self.width,
    {
        self.width
    }

    pub fn height(&self) -> (r: usize)
        ensures
            r == self.height,
    {
        self.height
    }

    /// Number of allocations of backing storage so far.
    pub fn allocations(&self) -> (r: u64)
        ensures
            r == self.allocations,
    {
        self.allocations
    }

    /// The cell storage, layer by layer and row by row.
    pub fn data(&self) -> (r: &Vec<u8>)
        ensures
            r@ == self.data@,
    {
        &self.data
    }

    /// Bounds-checked read of cell `(x, y)` of `layer`.
    pub fn cell_at(&self, layer: usize, x: usize, y: usize) -> (r: Option<u8>)
        requires
            self.wf(),
        ensures
            r.is_some() <==> in_grid(self.width as int, self.height as int, layer as int, x as int, y as int),
            r.is_some() ==> r.unwrap() == self.cell(layer as int, x as int, y as int),
    {
        if layer >= QUADRANTS || x >= self.width || y >= self.height {
            return None;
        }
        proof {
            lemma_cell_index_in_storage(self.width as int, self.height as int, layer as int, x as int, y as int);
        }
        Some(self.data[(layer * self.height + y) * self.width + x])
    }

    /// Bounds-checked write of cell `(x, y)` of `layer`: a cell outside the buffer
    /// is skipped (`false`) and nothing changes.
    pub fn set_cell(&mut self, layer: usize, x: usize, y: usize, value: u8) -> (r: bool)
        requires
            old(self).wf(),
        ensures
            final(self).wf(),
            final(self).dims() == old(self).dims(),
            final(self).allocations == old(self).allocations,
            r == in_grid(old(self).width as int, old(self).height as int, layer as int, x as int, y as int),
            !r ==> *final(self) == *old(self),
            r ==> final(self).data@ == old(self).data@.update(
                cell_index(old(self).width as int, old(self).height as int, layer as int, x as int, y as int),
                value,
            ),
    {
        if layer >= QUADRANTS || x >= self.width || y >= self.height {
            return false;
        }
        proof {
            lemma_cell_index_in_storage(self.width as int, self.height as int, layer as int, x as int, y as int);
        }
        let i = (layer * self.height + y) * self.width + x;
        self.data.set(i, value);
        true
    }

    /// Sizes the buffer for `viewport` with tiles of `tile` pixels, and returns
    /// the dimensions. Storage is reallocated (blank) only when they differ from
    /// the current ones; otherwise the buffer is left exactly as it was.
    pub fn resize_for(&mut self, viewport: Extent, tile: Extent) -> (r: Dims)
        requires
            old(self).wf(),
            tile.is_nonempty(),
            dims_fit(dims_for(viewport, tile)),
        ensures
            final(self).wf(),
            resize_post(*old(self), *final(self), viewport, tile, r),
    {
        let d = required_dims(viewport, tile);
        if d.width == self.width as u64 && d.height == self.height as u64 {
            return d;
        }
        proof {
            let (dw, dh) = (d.width as int, d.height as int);
            assert(dw + 2 <= (dw + 2) * (dh + 2) && dh + 2 <= (dw + 2) * (dh + 2)) by (nonlinear_arith)
                requires dw >= 0, dh >= 0;
            assert(dw * dh <= 4 * dw * dh && 4 * dw * dh == 4 * (dw * dh)) by (nonlinear_arith)
                requires dw >= 0, dh >= 0;
        }
        let w: usize = d.width as usize;
        let h: usize = d.height as usize;
        let n: usize = 4 * (w * h);
        self.data = vec![BLANK; n];
        self.width = w;
        self.height = h;
        self.allocations = self.allocations.saturating_add(1);
        d
    }

    /// The lattice window that `populate` needs for resolution `res`.
    pub fn sampling_shape(&self, res: Resolution) -> (r: WindowShape)
        requires
            self.wf(),
            res.base_x > i64::MIN,
            res.base_y > i64::MIN,
        ensures
            r == window_shape_for(res, self.width as int, self.height as int),
    {
        proof {
            assert(self.width + 2 <= (self.width + 2) * (self.height + 2)) by (nonlinear_arith);
            assert(self.height + 2 <= (self.width + 2) * (self.height + 2)) by (nonlinear_arith);
        }
        WindowShape { origin_x: res.base_x - 1, origin_y: res.base_y - 1, width: self.width + 2, height: self.height + 2 }
    }
    /// Fills every cell of every layer from `window` for resolution `res`: cell
    /// `(x, y)` of `layer` gets `populated_cell`. Returns `false`, and leaves the
    /// buffer as it was, when `window` does not have the shape that
    /// `sampling_shape` gives for these dimensions.
    pub fn populate(&mut self, res: Resolution, window: &NoiseWindow) -> (r: bool)
        requires
            old(self).wf(),
            window.wf(),
            res.quadrant < QUADRANTS,
        ensures
            final(self).wf(),
            final(self).dims() == old(self).dims(),
            final(self).allocations == old(self).allocations,
            r == (res.base_x > i64::MIN && res.base_y > i64::MIN
                && window.shape == window_shape_for(res, old(self).width as int, old(self).height as int)),
            !r ==> *final(self) == *old(self),
            r ==> populated_from(*final(self), *window, res),
            r ==> forall|layer: int, x: int, y: int|
                in_grid(old(self).width as int, old(self).height as int, layer, x, y)
                    ==> #[trigger] final(self).cell(layer, x, y) as int == populated_cell(*window, res, layer, x, y),
    {
        let w: usize = self.width;
        let h: usize = self.height;
        if !(res.base_x > i64::MIN && res.base_y > i64::MIN) {
            return false;
        }
        let expected = self.sampling_shape(res);
        if !(window.shape.origin_x == expected.origin_x && window.shape.origin_y == expected.origin_y
            && window.shape.width == expected.width && window.shape.height == expected.height) {
            return false;
        }
        proof {
            assert(w + 2 <= (w + 2) * (h + 2)) by (nonlinear_arith);
            assert(h + 2 <= (w + 2) * (h + 2)) by (nonlinear_arith);
            assert(w * h <= 4 * w * h && 4 * w * h == 4 * (w * h)) by (nonlinear_arith);
        }
        let ww: usize = w + 2;
        let n: usize = self.data.len();
        let plane: usize = w * h;
        let ghost wi = w as int;
        let ghost hi = h as int;
        let mut k: usize = 0;
        while k < n
            invariant
                w == self.width,
                h == self.height,
                wi == w,
                hi == h,
                ww == w + 2,
                plane == w * h,
                n == 4 * plane,
                n == self.data@.len(),
                (w + 2) * (h + 2) <= usize::MAX,
                w + 2 <= usize::MAX,
                h + 2 <= usize::MAX,
                window.wf(),
                window.shape == window_shape_for(res, wi, hi),
                res.quadrant < QUADRANTS,
                res.base_x > i64::MIN,
                res.base_y > i64::MIN,
                self.allocations == old(self).allocations,
                k <= n,
                forall|i: int| 0 <= i < k ==> #[trigger] self.data@[i] as int == populated_at(*window, res, wi, hi, i),
            decreases n - k,
        {
            let layer: usize = k / plane;
            let rest: usize = k % plane;
            proof {
                vstd::arithmetic::div_mod::lemma_fundamental_div_mod(k as int, plane as int);
                vstd::arithmetic::div_mod::lemma_mod_bound(k as int, plane as int);
                assert(w > 0 && h > 0) by (nonlinear_arith)
                    requires plane == w * h, plane > 0;
            }
            let y: usize = rest / w;
            let x: usize = rest % w;
            proof {
                vstd::arithmetic::div_mod::lemma_fundamental_div_mod(rest as int, w as int);
                vstd::arithmetic::div_mod::lemma_mod_bound(rest as int, w as int);
                assert(layer < 4) by (nonlinear_arith)
                    requires k == plane * layer + rest, rest >= 0, k < 4 * plane, plane > 0;
                assert(y < h) by (nonlinear_arith)
                    requires rest == w * y + x, x >= 0, rest < plane, plane == w * h, w > 0;
            }
            let (dx, dy) = layer_offset(res.quadrant, layer);
            let i: usize = (x as i64 + 1 + dx) as usize;
            let j: usize = (y as i64 + 1 + dy) as usize;
            proof {
                assert(j * ww + i < (w + 2) * (h + 2)) by (nonlinear_arith)
                    requires j <= h + 1, i <= w + 1, ww == w + 2;
                assert(window.shape.width == w + 2 && window.shape.height == h + 2);
                assert(window.samples@.len() == (w + 2) * (h + 2));
                assert(sample_in_range(window.samples@[j * ww + i] as int));
            }
            let idx: usize = j * ww + i;
            let v: u8 = normalize(window.samples[idx]);
            proof {
                assert(layer as int == (k as int) / (wi * hi));
                assert(rest as int == (k as int) % (wi * hi));
                let o = quad_offset(res.quadrant as int, layer as int);
                assert(i as int == x + o.0 + 1 && j as int == y + o.1 + 1);
                assert(window.shape.origin_x == res.base_x - 1 && window.shape.origin_y == res.base_y - 1);
                assert(window.at_lattice(x + res.base_x + o.0, y + res.base_y + o.1) == window.local(i as int, j as int));
                assert(window.local(i as int, j as int) == window.samples@[idx as int]);
                assert(v as int == populated_cell(*window, res, layer as int, x as int, y as int));
                assert(v as int == populated_at(*window, res, wi, hi, k as int));
            }
            self.data.set(k, v);
            k = k + 1;
        }
        proof {
            assert forall|layer: int, x: int, y: int|
                in_grid(wi, hi, layer, x, y) implies #[trigger] self.cell(layer, x, y) as int
                    == populated_cell(*window, res, layer, x, y) by {
                lemma_cell_index_decomposes(wi, hi, layer, x, y);
                lemma_cell_index_in_storage(wi, hi, layer, x, y);
                assert(self.data@[cell_index(wi, hi, layer, x, y)] as int
                    == populated_at(*window, res, wi, hi, cell_index(wi, hi, layer, x, y)));
            }
        }
        true
    }
}

} // verus!
