use vstd::prelude::*;
use crate::tiling::Extent;

verus! {

/// Camera positions are held in fixed point: one pixel is this many units.
pub const SUBPIXELS: u64 = 256;

/// Number of quadrants, and of overlay layers (one per entry of a quadrant's row).
pub const QUADRANTS: usize = 4;

/// World-space camera position, in units of `1 / SUBPIXELS` pixel.
#[derive(Clone, Copy, Debug, PartialEq, Eq, Structural)]
pub struct CameraOffset {
    pub x: i64,
    pub y: i64,
}

/// What the quadrant resolver derives from a camera offset: the whole-tile part
/// of the tile-space offset on each axis, and the quadrant that picks the
/// per-layer lattice offsets.
#[derive(Clone, Copy, Debug, PartialEq, Eq, Structural)]
pub struct Resolution {
    pub base_x: i64,
    pub base_y: i64,
    pub quadrant: usize,
}

/// The lattice offset that `layer` of `quadrant` applies to every sampled cell.
pub open spec fn quad_offset(quadrant: int, layer: int) -> (int, int) {
    if quadrant == 0 {
        if layer == 0 { (0, 0) } else if layer == 1 { (0, -1) } else if layer == 2 { (-1, -1) } else { (-1, 0) }
    } else if quadrant == 1 {
        if layer == 0 { (0, 1) } else if layer == 1 { (0, 0) } else if layer == 2 { (-1, 0) } else { (-1, 1) }
    } else if quadrant == 2 {
        if layer == 0 { (1, 1) } else if layer == 1 { (1, 0) } else if layer == 2 { (0, 0) } else { (0, 1) }
    } else {
        if layer == 0 { (1, 0) } else if layer == 1 { (1, -1) } else if layer == 2 { (0, -1) } else { (0, 0) }
    }
}

/// The quadrant chosen by the two sign-adjusted axis selectors.
pub open spec fn quadrant_of(sel_x: bool, sel_y: bool) -> int {
    if sel_x {
        if sel_y { 0 } else { 1 }
    } else {
        if sel_y { 3 } else { 2 }
    }
}

/// Floor of `pos / cell` (the division is Euclidean, so floor for `cell > 0`).
pub open spec fn axis_floor(pos: int, cell: int) -> int {
    pos / cell
}

/// The fractional part of `pos / cell` is below one half.
pub open spec fn lower_half(pos: int, cell: int) -> bool {
    2 * (pos % cell) < cell
}

/// Selector of one axis. It reads the fractional part of `pos / cell` taken
/// toward zero: on a negative offset that part lies in `(-1, 0]`, below one half,
/// so the selector is set; on a non-negative offset (where the part is the one
/// above the floor) it is set from one half up, a half exactly included.
pub open spec fn axis_selector(pos: int, cell: int) -> bool {
    if pos < 0 { true } else { !lower_half(pos, cell) }
}

/// Size of one tile along an axis, in camera units.
pub open spec fn cell_units(tile_px: u32) -> int {
    tile_px * SUBPIXELS
}

/// The resolution of `cam` over tiles of `tile` pixels.
pub open spec fn resolution_of(cam: CameraOffset, tile: Extent) -> Resolution {
    let cx = cell_units(tile.width);
    let cy = cell_units(tile.height);
    Resolution {
        base_x: axis_floor(cam.x as int, cx) as i64,
        base_y: axis_floor(cam.y as int, cy) as i64,
        quadrant: quadrant_of(axis_selector(cam.x as int, cx), axis_selector(cam.y as int, cy)) as usize,
    }
}

/// The layer of quadrant `qb` that applies the same lattice offset as `layer` of
/// quadrant `qa`, or `-1` when none does.
pub open spec fn matching_layer(qa: int, qb: int, layer: int) -> int {
    let o = quad_offset(qa, layer);
    if quad_offset(qb, 0) == o {
        0
    } else if quad_offset(qb, 1) == o {
        1
    } else if quad_offset(qb, 2) == o {
        2
    } else if quad_offset(qb, 3) == o {
        3
    } else {
        -1
    }
}

/// How many layers of quadrant `qa` have a matching layer in quadrant `qb`.
pub open spec fn shared_layers(qa: int, qb: int) -> int {
    (if matching_layer(qa, qb, 0) >= 0 { 1int } else { 0 }) + (if matching_layer(qa, qb, 1) >= 0 { 1int } else { 0 })
        + (if matching_layer(qa, qb, 2) >= 0 { 1int } else { 0 }) + (if matching_layer(qa, qb, 3) >= 0 { 1int } else { 0 })
}

/// Quadrants picked by selector pairs that differ on exactly one axis share
/// exactly two lattice offsets, each in its own layer.
pub proof fn lemma_adjacent_quadrants_share_two_layers(sx: bool, sy: bool, tx: bool, ty: bool)
    requires
        (sx != tx) != (sy != ty),
    ensures
        shared_layers(quadrant_of(sx, sy), quadrant_of(tx, ty)) == 2,
        forall|layer: int| 0 <= layer < QUADRANTS && #[trigger] matching_layer(quadrant_of(sx, sy), quadrant_of(tx, ty), layer) >= 0
            ==> quad_offset(quadrant_of(tx, ty), matching_layer(quadrant_of(sx, sy), quadrant_of(tx, ty), layer))
                == quad_offset(quadrant_of(sx, sy), layer),
{
}

/// Lattice offset of `layer` in `quadrant`.
pub fn layer_offset(quadrant: usize, layer: usize) -> (r: (i64, i64))
    requires
        quadrant < QUADRANTS,
        layer < QUADRANTS,
    ensures
        r.0 as int == quad_offset(quadrant as int, layer as int).0,
        r.1 as int == quad_offset(quadrant as int, layer as int).1,
{
    if quadrant == 0 {
        if layer == 0 { (0, 0) } else if layer == 1 { (0, -1) } else if layer == 2 { (-1, -1) } else { (-1, 0) }
    } else if quadrant == 1 {
        if layer == 0 { (0, 1) } else if layer == 1 { (0, 0) } else if layer == 2 { (-1, 0) } else { (-1, 1) }
    } else if quadrant == 2 {
        if layer == 0 { (1, 1) } else if layer == 1 { (1, 0) } else if layer == 2 { (0, 0) } else { (0, 1) }
    } else {
        if layer == 0 { (1, 0) } else if layer == 1 { (1, -1) } else if layer == 2 { (0, -1) } else { (0, 0) }
    }
}

/// Quadrant picked by the two axis selectors.
pub fn select_quadrant(sel_x: bool, sel_y: bool) -> (r: usize)
    ensures
        r as int == quadrant_of(sel_x, sel_y),
        r < QUADRANTS,
{
    match (sel_x, sel_y) {
        (true, true) => 0,
        (true, false) => 1,
        (false, false) => 2,
        (false, true) => 3,
    }
}

/// Splits a position on one axis into its whole-tile part and its selector.
pub fn split_axis(pos: i64, cell: u64) -> (r: (i64, bool))
    requires
        cell >= 2,
    ensures
        r.0 as int == axis_floor(pos as int, cell as int),
        r.0 > i64::MIN,
        r.1 == axis_selector(pos as int, cell as int),
{
    if pos >= 0 {
        let p: u64 = pos as u64;
        let q: u64 = p / cell;
        let m: u64 = p % cell;
        proof {
            vstd::arithmetic::div_mod::lemma_div_is_ordered_by_denominator(p as int, 1, cell as int);
        }
        (q as i64, m >= cell - m)
    } else {
        // pos = -(n + 1) with n >= 0, so floor(pos / cell) = -(n / cell) - 1.
        let n: u64 = (-(pos + 1)) as u64;
        let q: u64 = n / cell;
        proof {
            let k: int = n as int % cell as int;
            let m: int = cell - 1 - k;
            vstd::arithmetic::div_mod::lemma_fundamental_div_mod(n as int, cell as int);
            vstd::arithmetic::div_mod::lemma_mod_bound(n as int, cell as int);
            vstd::arithmetic::div_mod::lemma_div_is_ordered_by_denominator(n as int, 2, cell as int);
            let fl: int = -(q as int) - 1;
            assert(pos as int == cell * fl + m) by (nonlinear_arith)
                requires
                    n as int == cell * (q as int) + k,
                    pos as int == -(n as int) - 1,
                    fl == -(q as int) - 1,
                    m == cell - 1 - k;
            vstd::arithmetic::div_mod::lemma_fundamental_div_mod_converse(pos as int, cell as int, fl, m);
        }
        (-(q as i64) - 1, true)
    }
}

/// The quadrant resolver: tile-space floor and quadrant of `cam` over tiles of
/// `tile` pixels.
pub fn resolve_quadrant(cam: CameraOffset, tile: Extent) -> (r: Resolution)
    requires
        tile.is_nonempty(),
    ensures
        r == resolution_of(cam, tile),
        r.quadrant < QUADRANTS,
        r.base_x > i64::MIN,
        r.base_y > i64::MIN,
{
    let cx: u64 = tile.width as u64 * SUBPIXELS;
    let cy: u64 = tile.height as u64 * SUBPIXELS;
    let (bx, sx) = split_axis(cam.x, cx);
    let (by, sy) = split_axis(cam.y, cy);
    Resolution { base_x: bx, base_y: by, quadrant: select_quadrant(sx, sy) }
}

} // verus!
