use vstd::prelude::*;

verus! {

/// Margin, in whole tiles, added to each axis of the covered area.
pub const PADDING: u64 = 2;

/// A size in pixels (a viewport, or the pixel size of one base tile).
#[derive(Clone, Copy, Debug, PartialEq, Eq, Structural)]
pub struct Extent {
    pub width: u32,
    pub height: u32,
}

/// Dimensions of an overlay buffer, in cells (one cell per tile).
#[derive(Clone, Copy, Debug, PartialEq, Eq, Structural)]
pub struct Dims {
    pub width: u64,
    pub height: u64,
}

impl Extent {
    pub open spec fn is_nonempty(self) -> bool {
        self.width > 0 && self.height > 0
    }
}

/// `ceil(v / t)`, for a positive `t`.
pub open spec fn ceil_div(v: nat, t: nat) -> nat {
    ((v + t - 1) as nat) / t
}

/// Cells needed along one axis: the tiles that cover `v` pixels, plus the margin.
pub open spec fn cells_needed(v: nat, t: nat) -> nat {
    ceil_div(v, t) + PADDING as nat
}

/// Buffer dimensions that cover `viewport` with tiles of size `tile`.
pub open spec fn dims_for(viewport: Extent, tile: Extent) -> Dims {
    Dims {
        width: cells_needed(viewport.width as nat, tile.width as nat) as u64,
        height: cells_needed(viewport.height as nat, tile.height as nat) as u64,
    }
}

/// Number of cells along one axis that cover `v` pixels with tiles of `t` pixels.
pub fn tiles_needed(v: u32, t: u32) -> (r: u64)
    requires
        t > 0,
    ensures
        r == cells_needed(v as nat, t as nat),
        r as int * t >= v,
        (r - PADDING) * t < v + t,
{
    let q: u64 = (v as u64 + t as u64 - 1) / t as u64;
    proof {
        let n: int = v + t - 1;
        vstd::arithmetic::div_mod::lemma_fundamental_div_mod(n, t as int);
        vstd::arithmetic::div_mod::lemma_mod_bound(n, t as int);
        assert(q as int == n / (t as int));
        assert(q * t == t * (n / (t as int))) by (nonlinear_arith)
            requires q as int == n / (t as int);
        assert((q + PADDING) * t == q * t + PADDING * t) by (nonlinear_arith);
    }
    q + PADDING
}

/// Dimensions that the overlay buffer must have for `viewport` and tiles of size `tile`.
pub fn required_dims(viewport: Extent, tile: Extent) -> (r: Dims)
    requires
        tile.is_nonempty(),
    ensures
        r == dims_for(viewport, tile),
{
    Dims { width: tiles_needed(viewport.width, tile.width), height: tiles_needed(viewport.height, tile.height) }
}

} // verus!
