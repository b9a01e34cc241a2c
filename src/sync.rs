use vstd::prelude::*;
use crate::buffer::{dims_fit, fits_in_memory, populated_cell, populated_from, window_shape_for, in_grid, OverlayBuffer, BLANK};
use crate::quadrant::{resolution_of, resolve_quadrant, CameraOffset, Resolution, QUADRANTS};
use crate::window::{NoiseWindow, WindowShape};
use crate::tiling::{dims_for, required_dims, Dims, Extent};
use std::collections::HashSet;

verus! {

broadcast use vstd::std_specs::hash::group_hash_axioms;

/// The viewport and tile size an overlay was last sized for.
#[derive(Clone, Copy, Debug, PartialEq, Eq, Structural)]
pub struct Sizing {
    pub viewport: Extent,
    pub tile: Extent,
}

/// Where a tile surface stands in its life.
#[derive(Clone, Copy, Debug, PartialEq, Eq, Structural)]
pub enum SyncState {
    /// The base tile texture has not finished loading.
    Unloaded,
    /// The base tile is known, the overlay is not allocated yet.
    Sizing,
    /// The overlay is allocated and is repopulated every cycle.
    Ready,
}

/// What handling one regenerate request did.
#[derive(Clone, Copy, Debug, PartialEq, Eq, Structural)]
pub enum LoadOutcome {
    /// No material has the requested index.
    MaterialNotFound,
    /// The material's base tile texture is not loaded (or has no pixels).
    TextureNotLoaded,
    /// The required overlay cannot be addressed on this machine.
    TooLarge,
    /// A new overlay was allocated with these dimensions.
    Created(Dims),
    /// The overlay was reallocated to these dimensions.
    Resized(Dims),
    /// The overlay already had these dimensions; nothing was allocated.
    Unchanged(Dims),
}

/// A material binding: the base tile texture it repeats (by id) and the noise
/// overlay drawn over it, unset until the first regenerate request succeeds.
#[derive(Debug)]
pub struct TileMaterial {
    pub texture: u64,
    pub noise: Option<OverlayBuffer>,
    pub sizing: Option<Sizing>,
    /// Resolution of the last population, when nothing has changed since.
    pub last_populated: Option<Resolution>,
}

/// The base tile is loaded and has pixels.
pub open spec fn tile_ready(tile: Option<Extent>) -> bool {
    tile.is_some() && tile.unwrap().is_nonempty()
}

/// What handling a regenerate request for `screen_size` does to a material `m`
/// (becoming `m2`, with outcome `r`) when its base tile is `tile`.
pub open spec fn load_post(m: TileMaterial, m2: TileMaterial, screen_size: Extent, tile: Option<Extent>, r: LoadOutcome) -> bool {
    &&& m2.texture == m.texture
    &&& !tile_ready(tile) ==> r == LoadOutcome::TextureNotLoaded && m2 == m
    &&& tile_ready(tile) && !dims_fit(dims_for(screen_size, tile.unwrap())) ==> r == LoadOutcome::TooLarge && m2 == m
    &&& tile_ready(tile) && dims_fit(dims_for(screen_size, tile.unwrap())) ==> {
        let d = dims_for(screen_size, tile.unwrap());
        &&& m2.sizing == Some(Sizing { viewport: screen_size, tile: tile.unwrap() })
        &&& m2.noise.is_some()
        &&& m2.noise.unwrap().dims() == d
        &&& match m.noise {
            None => {
                &&& r == LoadOutcome::Created(d)
                &&& m2.noise.unwrap().allocations == 1
                &&& m2.last_populated.is_none()
                &&& forall|i: int| 0 <= i < m2.noise.unwrap().data@.len() ==> m2.noise.unwrap().data@[i] == BLANK
            },
            Some(b) => if b.dims() == d {
                &&& r == LoadOutcome::Unchanged(d)
                &&& m2.noise == m.noise
                &&& m2.last_populated == m.last_populated
            } else {
                &&& r == LoadOutcome::Resized(d)
                &&& m2.noise.unwrap().allocations
                    == (if b.allocations == u64::MAX { u64::MAX as int } else { b.allocations + 1 })
                &&& m2.last_populated.is_none()
                &&& forall|i: int| 0 <= i < m2.noise.unwrap().data@.len() ==> m2.noise.unwrap().data@[i] == BLANK
            },
        }
    }
}

impl TileMaterial {
    pub open spec fn wf(&self) -> bool {
        match self.noise {
            None => self.sizing.is_none() && self.last_populated.is_none(),
            Some(b) => {
                &&& b.wf()
                &&& self.sizing.is_some()
                &&& self.sizing.unwrap().tile.is_nonempty()
                &&& b.dims() == dims_for(self.sizing.unwrap().viewport, self.sizing.unwrap().tile)
            },
        }
    }

    /// State of this surface, given whether its base tile is currently loaded.
    pub open spec fn state_spec(&self, tile: Option<Extent>) -> SyncState {
        if self.noise.is_some() {
            SyncState::Ready
        } else if tile.is_some() && tile.unwrap().is_nonempty() {
            SyncState::Sizing
        } else {
            SyncState::Unloaded
        }
    }

    pub open spec fn new_spec(texture: u64) -> TileMaterial {
        TileMaterial { texture, noise: None, sizing: None, last_populated: None }
    }

    /// A binding of base tile `texture` with no overlay yet.
    pub fn new(texture: u64) -> (r: TileMaterial)
        ensures
            r.wf(),
            r == TileMaterial::new_spec(texture),
    {
        TileMaterial { texture, noise: None, sizing: None, last_populated: None }
    }

    pub fn state(&self, tile: Option<Extent>) -> (r: SyncState)
        ensures
            r == self.state_spec(tile),
    {
        if self.noise.is_some() {
            SyncState::Ready
        } else {
            match tile {
                Some(t) => if t.width > 0 && t.height > 0 { SyncState::Sizing } else { SyncState::Unloaded },
                None => SyncState::Unloaded,
            }
        }
    }

    /// Handles a regenerate request for this material: with the base tile loaded
    /// (`tile`), allocates the overlay if it is unset, or resizes it in place when
    /// its dimensions differ from those `screen_size` requires.
    pub fn load_noise_map(&mut self, screen_size: Extent, tile: Option<Extent>) -> (r: LoadOutcome)
        requires
            old(self).wf(),
        ensures
            final(self).wf(),
            final(self).texture == old(self).texture,
            load_post(*old(self), *final(self), screen_size, tile, r),
    {
        let t = match tile {
            Some(t) => t,
            None => return LoadOutcome::TextureNotLoaded,
        };
        if t.width == 0 || t.height == 0 {
            return LoadOutcome::TextureNotLoaded;
        }
        let d = required_dims(screen_size, t);
        if !fits_in_memory(d) {
            return LoadOutcome::TooLarge;
        }
        let outcome = match self.noise {
            None => {
                let mut b = OverlayBuffer::new();
                b.resize_for(screen_size, t);
                self.noise = Some(b);
                self.last_populated = None;
                LoadOutcome::Created(d)
            },
            Some(ref mut b) => {
                if b.width as u64 == d.width && b.height as u64 == d.height {
                    LoadOutcome::Unchanged(d)
                } else {
                    b.resize_for(screen_size, t);
                    self.last_populated = None;
                    LoadOutcome::Resized(d)
                }
            },
        };
        self.sizing = Some(Sizing { viewport: screen_size, tile: t });
        outcome
    }
}

impl LoadOutcome {
    /// The overlay is allocated and sized after this outcome.
    pub open spec fn is_sized(self) -> bool {
        match self {
            LoadOutcome::Created(_) | LoadOutcome::Resized(_) | LoadOutcome::Unchanged(_) => true,
            _ => false,
        }
    }
}

/// No premature read: once a regenerate request is handled for a material whose
/// base tile is ready, and the dimensions fit, the material is `Ready`, recorded
/// as sized for that request's viewport, with an overlay of exactly the
/// dimensions that viewport requires, which is what `overlay` hands to the
/// rendering surface.
pub proof fn lemma_handled_request_sizes_overlay(
    m: TileMaterial,
    m2: TileMaterial,
    screen_size: Extent,
    tile: Option<Extent>,
    r: LoadOutcome,
)
    requires
        m.wf(),
        tile_ready(tile),
        dims_fit(dims_for(screen_size, tile.unwrap())),
        load_post(m, m2, screen_size, tile, r),
    ensures
        r.is_sized(),
        m2.state_spec(tile) == SyncState::Ready,
        m2.sizing == Some(Sizing { viewport: screen_size, tile: tile.unwrap() }),
        m2.noise.unwrap().dims() == dims_for(screen_size, tile.unwrap()),
{
}

/// Handling is idempotent: a second regenerate request with the same viewport
/// and base tile changes nothing and reports `Unchanged` (when the tile is ready
/// and the dimensions fit), so the pair allocates at most once, and the overlay
/// then has the dimensions that viewport requires.
pub proof fn lemma_repeated_request_is_idempotent(
    m0: TileMaterial,
    m1: TileMaterial,
    m2: TileMaterial,
    screen_size: Extent,
    tile: Option<Extent>,
    r1: LoadOutcome,
    r2: LoadOutcome,
)
    requires
        m0.wf(),
        load_post(m0, m1, screen_size, tile, r1),
        load_post(m1, m2, screen_size, tile, r2),
    ensures
        m2 == m1,
        tile_ready(tile) && dims_fit(dims_for(screen_size, tile.unwrap())) ==> {
            &&& r2 == LoadOutcome::Unchanged(dims_for(screen_size, tile.unwrap()))
            &&& m2.noise.unwrap().dims() == dims_for(screen_size, tile.unwrap())
            &&& m0.noise.is_none() ==> m2.noise.unwrap().allocations == 1
        },
{
}

/// The outcome the handler reports for request `req` when the base tile of its
/// material is `tile`: which skip, or the dimensions the overlay then has.
pub open spec fn outcome_for(o: LoadOutcome, req: GenNewNoiseImage, tile: Option<Extent>) -> bool {
    if !tile_ready(tile) {
        o == LoadOutcome::TextureNotLoaded
    } else if !dims_fit(dims_for(req.screen_size, tile.unwrap())) {
        o == LoadOutcome::TooLarge
    } else {
        let d = dims_for(req.screen_size, tile.unwrap());
        o == LoadOutcome::Created(d) || o == LoadOutcome::Resized(d) || o == LoadOutcome::Unchanged(d)
    }
}

/// A regenerate request: size the overlay of material `handle` for a viewport
/// of `screen_size` pixels.
#[derive(Clone, Copy, Debug, PartialEq, Eq, Structural)]
pub struct GenNewNoiseImage {
    pub screen_size: Extent,
    pub handle: usize,
}

/// The per-frame controller over every registered tile surface.
#[derive(Debug)]
pub struct SyncController {
    pub materials: Vec<TileMaterial>,
    /// Skip repopulating a surface whose resolution has not changed since its
    /// last population (off: every cycle repopulates).
    pub skip_unchanged: bool,
}

/// Requests issued for a batch of viewport-resize events over `n` materials:
/// none for an empty batch, else one per material carrying the latest size.
pub open spec fn resize_requests(events: Seq<Extent>, n: int) -> Seq<GenNewNoiseImage> {
    if events.len() == 0 {
        Seq::empty()
    } else {
        Seq::new(n as nat, |i: int| GenNewNoiseImage { screen_size: events.last(), handle: i as usize })
    }
}

/// Requests issued, in order, for the first `n` materials when the textures in
/// `loaded` have finished loading: one for each material whose base tile is among
/// them, carrying the current window size.
pub open spec fn load_requests(loaded: Set<u64>, mats: Seq<TileMaterial>, window: Extent, n: int) -> Seq<GenNewNoiseImage>
    decreases n,
{
    if n <= 0 {
        Seq::empty()
    } else if loaded.contains(mats[n - 1].texture) {
        load_requests(loaded, mats, window, n - 1).push(GenNewNoiseImage { screen_size: window, handle: (n - 1) as usize })
    } else {
        load_requests(loaded, mats, window, n - 1)
    }
}

/// Every regenerate request of one cycle, in the order handled: those for
/// textures that finished loading, then those for the latest resize.
pub open spec fn cycle_requests(loaded: Set<u64>, mats: Seq<TileMaterial>, window: Extent, resizes: Seq<Extent>) -> Seq<
    GenNewNoiseImage,
> {
    load_requests(loaded, mats, window, mats.len() as int) + resize_requests(resizes, mats.len() as int)
}

/// The base tile of material `i`, as reported for this cycle.
pub open spec fn tile_at(tiles: Seq<Option<Extent>>, i: int) -> Option<Extent> {
    if 0 <= i < tiles.len() { tiles[i] } else { None }
}

/// Facts about `load_requests`: every request carries `window` and names a
/// material below `n` whose texture is in `loaded`; handles strictly increase;
/// and every such material is named.
pub proof fn lemma_load_requests(loaded: Set<u64>, mats: Seq<TileMaterial>, window: Extent, n: int)
    requires
        0 <= n <= mats.len(),
        mats.len() <= usize::MAX,
    ensures
        forall|j: int| 0 <= j < load_requests(loaded, mats, window, n).len() ==> {
            let q = #[trigger] load_requests(loaded, mats, window, n)[j];
            &&& q.screen_size == window
            &&& 0 <= q.handle < n
            &&& loaded.contains(mats[q.handle as int].texture)
        },
        forall|j1: int, j2: int| 0 <= j1 < j2 < load_requests(loaded, mats, window, n).len()
            ==> #[trigger] load_requests(loaded, mats, window, n)[j1].handle
                < #[trigger] load_requests(loaded, mats, window, n)[j2].handle,
        forall|i: int| 0 <= i < n && loaded.contains(#[trigger] mats[i].texture)
            ==> exists|j: int| 0 <= j < load_requests(loaded, mats, window, n).len()
                && load_requests(loaded, mats, window, n)[j].handle == i,
    decreases n,
{
    if n > 0 {
        lemma_load_requests(loaded, mats, window, n - 1);
        let prev = load_requests(loaded, mats, window, n - 1);
        let cur = load_requests(loaded, mats, window, n);
        if loaded.contains(mats[n - 1].texture) {
            assert(cur == prev.push(GenNewNoiseImage { screen_size: window, handle: (n - 1) as usize }));
            assert forall|i: int| 0 <= i < n && loaded.contains(#[trigger] mats[i].texture)
                implies exists|j: int| 0 <= j < cur.len() && cur[j].handle == i by {
                if i == n - 1 {
                    assert(cur[prev.len() as int].handle == i);
                } else {
                    let j = choose|j: int| 0 <= j < prev.len() && prev[j].handle == i;
                    assert(cur[j] == prev[j]);
                }
            }
        } else {
            assert(cur == prev);
        }
    }
}

/// Material `m` is recorded as sized for viewport `v`, when its base tile is
/// ready and the dimensions fit.
pub open spec fn sized_for(m: TileMaterial, v: Extent, tile: Option<Extent>) -> bool {
    tile_ready(tile) && dims_fit(dims_for(v, tile.unwrap())) ==> m.sizing == Some(Sizing { viewport: v, tile: tile.unwrap() })
}

impl SyncController {
    pub open spec fn wf(&self) -> bool {
        &&& self.materials@.len() <= usize::MAX
        &&& forall|i: int| 0 <= i < self.materials@.len() ==> (#[trigger] self.materials@[i]).wf()
    }

    pub fn new(skip_unchanged: bool) -> (r: SyncController)
        ensures
            r.wf(),
            r.materials@.len() == 0,
            r.skip_unchanged == skip_unchanged,
    {
        SyncController { materials: Vec::new(), skip_unchanged }
    }

    /// Registers a surface over base tile `texture` and returns its handle.
    pub fn register(&mut self, texture: u64) -> (r: usize)
        requires
            old(self).wf(),
            old(self).materials@.len() < usize::MAX,
        ensures
            final(self).wf(),
            r == old(self).materials@.len(),
            final(self).skip_unchanged == old(self).skip_unchanged,
            final(self).materials@ == old(self).materials@.push(TileMaterial::new_spec(texture)),
    {
        let r = self.materials.len();
        self.materials.push(TileMaterial::new(texture));
        r
    }

    /// Handles one regenerate request; `tile` is the pixel size of the material's
    /// base tile when that texture is loaded. Other materials are not touched.
    pub fn load_noise_map(&mut self, req: GenNewNoiseImage, tile: Option<Extent>) -> (r: LoadOutcome)
        requires
            old(self).wf(),
        ensures
            final(self).wf(),
            final(self).skip_unchanged == old(self).skip_unchanged,
            final(self).materials@.len() == old(self).materials@.len(),
            req.handle >= old(self).materials@.len() ==> r == LoadOutcome::MaterialNotFound
                && final(self).materials@ == old(self).materials@,
            req.handle < old(self).materials@.len() ==> {
                &&& load_post(old(self).materials@[req.handle as int], final(self).materials@[req.handle as int],
                    req.screen_size, tile, r)
                &&& forall|i: int| 0 <= i < old(self).materials@.len() && i != req.handle
                    ==> final(self).materials@[i] == old(self).materials@[i]
            },
    {
        if req.handle >= self.materials.len() {
            return LoadOutcome::MaterialNotFound;
        }
        let ghost before = self.materials@;
        let m = &mut self.materials[req.handle];
        let r = m.load_noise_map(req.screen_size, tile);
        proof {
            assert forall|i: int| 0 <= i < self.materials@.len() implies (#[trigger] self.materials@[i]).wf() by {
                if i != req.handle {
                    assert(self.materials@[i] == before[i]);
                }
            }
        }
        r
    }

    /// Steps one and two of a cycle: turns this cycle's texture-ready events
    /// (`loaded`) and viewport-resize events (`resizes`, oldest first) into
    /// regenerate requests and handles them, texture-ready requests first. `tiles`
    /// gives the base tile size of each material whose texture is loaded.
    /// Returns the outcome of each request in the order handled.
    pub fn process_events(
        &mut self,
        resizes: &Vec<Extent>,
        loaded: &HashSet<u64>,
        window: Extent,
        tiles: &Vec<Option<Extent>>,
    ) -> (r: Vec<LoadOutcome>)
        requires
            old(self).wf(),
        ensures
            final(self).wf(),
            final(self).skip_unchanged == old(self).skip_unchanged,
            final(self).materials@.len() == old(self).materials@.len(),
            r@.len() == load_requests(loaded@, old(self).materials@, window, old(self).materials@.len() as int).len()
                + resize_requests(resizes@, old(self).materials@.len() as int).len(),
            forall|i: int| 0 <= i < final(self).materials@.len()
                ==> (#[trigger] final(self).materials@[i]).texture == old(self).materials@[i].texture,
            forall|j: int| 0 <= j < r@.len() ==> {
                let q = cycle_requests(loaded@, old(self).materials@, window, resizes@)[j];
                outcome_for(#[trigger] r@[j], q, tile_at(tiles@, q.handle as int))
            },
            forall|i: int| 0 <= i < final(self).materials@.len() && !tile_ready(tile_at(tiles@, i))
                ==> #[trigger] final(self).materials@[i] == old(self).materials@[i],
            resizes@.len() > 0 ==> forall|i: int| 0 <= i < final(self).materials@.len()
                ==> sized_for(#[trigger] final(self).materials@[i], resizes@.last(), tile_at(tiles@, i)),
            resizes@.len() == 0 ==> forall|i: int| 0 <= i < final(self).materials@.len() ==> {
                &&& loaded@.contains(old(self).materials@[i].texture)
                    ==> sized_for(#[trigger] final(self).materials@[i], window, tile_at(tiles@, i))
                &&& !loaded@.contains(old(self).materials@[i].texture)
                    ==> final(self).materials@[i] == old(self).materials@[i]
            },
    {
        let ghost m0 = self.materials@;
        let loads = self.on_image_load(loaded, window);
        let resized = self.on_resize(resizes);
        proof {
            lemma_load_requests(loaded@, m0, window, m0.len() as int);
        }
        let mut r: Vec<LoadOutcome> = Vec::new();
        let mut k: usize = 0;
        while k < loads.len()
            invariant
                self.wf(),
                self.skip_unchanged == old(self).skip_unchanged,
                self.materials@.len() == m0.len(),
                forall|i: int| 0 <= i < m0.len() ==> (#[trigger] self.materials@[i]).texture == m0[i].texture,
                loads@ == load_requests(loaded@, m0, window, m0.len() as int),
                forall|j: int| 0 <= j < loads@.len() ==> {
                    let q = #[trigger] loads@[j];
                    &&& q.screen_size == window
                    &&& 0 <= q.handle < m0.len()
                    &&& loaded@.contains(m0[q.handle as int].texture)
                },
                forall|j1: int, j2: int| 0 <= j1 < j2 < loads@.len()
                    ==> #[trigger] loads@[j1].handle < #[trigger] loads@[j2].handle,
                k <= loads@.len(),
                r@.len() == k,
                forall|i: int| 0 <= i < m0.len() && (exists|j: int| 0 <= j < k && loads@[j].handle == i)
                    ==> sized_for(#[trigger] self.materials@[i], window, tile_at(tiles@, i)),
                forall|i: int| 0 <= i < m0.len() && (forall|j: int| 0 <= j < k ==> loads@[j].handle != i)
                    ==> #[trigger] self.materials@[i] == m0[i],
                forall|i: int| 0 <= i < m0.len() && !tile_ready(tile_at(tiles@, i))
                    ==> #[trigger] self.materials@[i] == m0[i],
                forall|j: int| 0 <= j < k
                    ==> outcome_for(#[trigger] r@[j], loads@[j], tile_at(tiles@, loads@[j].handle as int)),
            decreases loads@.len() - k,
        {
            let req = loads[k];
            let tile = if req.handle < tiles.len() { tiles[req.handle] } else { None };
            let ghost before = self.materials@;
            let o = self.load_noise_map(req, tile);
            r.push(o);
            k = k + 1;
            proof {
                assert(tile == tile_at(tiles@, req.handle as int));
                assert(outcome_for(o, req, tile));
                assert forall|j: int| 0 <= j < k
                    implies outcome_for(#[trigger] r@[j], loads@[j], tile_at(tiles@, loads@[j].handle as int)) by {
                    if j < k - 1 {
                        assert(r@[j] == r@.drop_last()[j]);
                    }
                }
                assert forall|i: int| 0 <= i < m0.len() && !tile_ready(tile_at(tiles@, i))
                    implies #[trigger] self.materials@[i] == m0[i] by {
                    assert(self.materials@[i] == before[i]);
                }
                assert forall|i: int| 0 <= i < m0.len() && (exists|j: int| 0 <= j < k && loads@[j].handle == i)
                    implies sized_for(#[trigger] self.materials@[i], window, tile_at(tiles@, i)) by {
                    if i != req.handle {
                        let j = choose|j: int| 0 <= j < k && loads@[j].handle == i;
                        assert(j < k - 1);
                        assert(self.materials@[i] == before[i]);
                    }
                }
                assert forall|i: int| 0 <= i < m0.len() && (forall|j: int| 0 <= j < k ==> loads@[j].handle != i)
                    implies #[trigger] self.materials@[i] == m0[i] by {
                    assert(loads@[k - 1].handle != i);
                    assert(self.materials@[i] == before[i]);
                }
            }
        }
        let ghost m1 = self.materials@;
        proof {
            assert forall|i: int| 0 <= i < m0.len() implies
                (loaded@.contains(m0[i].texture) ==> sized_for(#[trigger] m1[i], window, tile_at(tiles@, i)))
                && (!loaded@.contains(m0[i].texture) ==> m1[i] == m0[i]) by {
                if loaded@.contains(m0[i].texture) {
                    let j = choose|j: int| 0 <= j < loads@.len() && loads@[j].handle == i;
                    assert(exists|j: int| 0 <= j < k && loads@[j].handle == i);
                } else {
                    assert forall|j: int| 0 <= j < k implies loads@[j].handle != i by {
                        assert(loaded@.contains(m0[loads@[j].handle as int].texture));
                    }
                }
            }
        }
        let mut k: usize = 0;
        while k < resized.len()
            invariant
                self.wf(),
                self.skip_unchanged == old(self).skip_unchanged,
                self.materials@.len() == m0.len(),
                forall|i: int| 0 <= i < m0.len() ==> (#[trigger] self.materials@[i]).texture == m0[i].texture,
                resized@ == resize_requests(resizes@, m0.len() as int),
                k <= resized@.len(),
                r@.len() == loads@.len() + k,
                forall|i: int| 0 <= i < k ==> sized_for(#[trigger] self.materials@[i], resizes@.last(), tile_at(tiles@, i)),
                resizes@.len() == 0 ==> self.materials@ == m1,
                forall|i: int| 0 <= i < m0.len() && !tile_ready(tile_at(tiles@, i))
                    ==> #[trigger] self.materials@[i] == m0[i],
                loads@ == load_requests(loaded@, m0, window, m0.len() as int),
                forall|j: int| 0 <= j < loads@.len()
                    ==> outcome_for(#[trigger] r@[j], loads@[j], tile_at(tiles@, loads@[j].handle as int)),
                forall|j: int| 0 <= j < k ==> outcome_for(
                    #[trigger] r@[loads@.len() + j],
                    resized@[j],
                    tile_at(tiles@, resized@[j].handle as int),
                ),
            decreases resized@.len() - k,
        {
            let req = resized[k];
            proof {
                assert(req.handle == k && req.screen_size == resizes@.last());
            }
            let tile = if req.handle < tiles.len() { tiles[req.handle] } else { None };
            let ghost before = self.materials@;
            let ghost r_before = r@;
            let o = self.load_noise_map(req, tile);
            r.push(o);
            k = k + 1;
            proof {
                assert(tile == tile_at(tiles@, req.handle as int));
                assert(outcome_for(o, req, tile));
                assert forall|j: int| 0 <= j < loads@.len()
                    implies outcome_for(#[trigger] r@[j], loads@[j], tile_at(tiles@, loads@[j].handle as int)) by {
                    assert(r@[j] == r_before[j]);
                }
                assert forall|j: int| 0 <= j < k implies outcome_for(
                    #[trigger] r@[loads@.len() + j],
                    resized@[j],
                    tile_at(tiles@, resized@[j].handle as int),
                ) by {
                    if j < k - 1 {
                        assert(r@[loads@.len() + j] == r_before[loads@.len() + j]);
                    }
                }
                assert forall|i: int| 0 <= i < m0.len() && !tile_ready(tile_at(tiles@, i))
                    implies #[trigger] self.materials@[i] == m0[i] by {
                    assert(self.materials@[i] == before[i]);
                }
            }
        }
        proof {
            let all = cycle_requests(loaded@, m0, window, resizes@);
            assert forall|j: int| 0 <= j < r@.len() implies {
                let q = all[j];
                outcome_for(#[trigger] r@[j], q, tile_at(tiles@, q.handle as int))
            } by {
                if j >= loads@.len() {
                    let t = j - loads@.len();
                    assert(r@[loads@.len() + t] == r@[j]);
                    assert(all[j] == resized@[t]);
                } else {
                    assert(all[j] == loads@[j]);
                }
            }
        }
        r
    }

    /// Step three, first half: for a `Ready` material, the resolution of camera
    /// `cam` over its base tile and the noise window to sample for it. `None` when
    /// the material is missing or not `Ready`, or when skipping unchanged
    /// resolutions is on and this one was the last populated.
    pub fn sampling_request(&self, handle: usize, cam: CameraOffset) -> (r: Option<(Resolution, WindowShape)>)
        requires
            self.wf(),
        ensures
            r.is_some() <==> handle < self.materials@.len() && self.materials@[handle as int].noise.is_some()
                && !(self.skip_unchanged && self.materials@[handle as int].last_populated
                    == Some(resolution_of(cam, self.materials@[handle as int].sizing.unwrap().tile))),
            r.is_some() ==> {
                let m = self.materials@[handle as int];
                let res = resolution_of(cam, m.sizing.unwrap().tile);
                &&& r.unwrap().0 == res
                &&& r.unwrap().1 == window_shape_for(res, m.noise.unwrap().width as int, m.noise.unwrap().height as int)
                &&& res.quadrant < QUADRANTS
                &&& res.base_x > i64::MIN
                &&& res.base_y > i64::MIN
            },
    {
        if handle >= self.materials.len() {
            return None;
        }
        let m = &self.materials[handle];
        match (&m.noise, m.sizing) {
            (Some(b), Some(sz)) => {
                let res = resolve_quadrant(cam, sz.tile);
                if self.skip_unchanged {
                    if let Some(last) = m.last_populated {
                        if last == res {
                            return None;
                        }
                    }
                }
                Some((res, b.sampling_shape(res)))
            },
            _ => None,
        }
    }

    /// Step three, second half: fills the overlay of material `handle` from
    /// `window` for resolution `res`. Returns `false`, changing nothing, when the
    /// material is missing or not `Ready`, or `window` is not the one
    /// `sampling_request` names for `res`.
    pub fn populate(&mut self, handle: usize, res: Resolution, window: &NoiseWindow) -> (r: bool)
        requires
            old(self).wf(),
            window.wf(),
        ensures
            final(self).wf(),
            final(self).skip_unchanged == old(self).skip_unchanged,
            final(self).materials@.len() == old(self).materials@.len(),
            r == (handle < old(self).materials@.len() && old(self).materials@[handle as int].noise.is_some()
                && res.quadrant < QUADRANTS && res.base_x > i64::MIN && res.base_y > i64::MIN
                && window.shape == window_shape_for(res, old(self).materials@[handle as int].noise.unwrap().width as int,
                    old(self).materials@[handle as int].noise.unwrap().height as int)),
            !r ==> final(self).materials@ == old(self).materials@,
            r ==> {
                let m = old(self).materials@[handle as int];
                let m2 = final(self).materials@[handle as int];
                let b = m.noise.unwrap();
                let b2 = m2.noise.unwrap();
                &&& m2.texture == m.texture
                &&& m2.sizing == m.sizing
                &&& m2.last_populated == Some(res)
                &&& m2.noise.is_some()
                &&& b2.dims() == b.dims()
                &&& populated_from(b2, *window, res)
                &&& forall|layer: int, x: int, y: int| in_grid(b.width as int, b.height as int, layer, x, y)
                    ==> #[trigger] b2.cell(layer, x, y) as int == populated_cell(*window, res, layer, x, y)
            },
            forall|i: int| 0 <= i < old(self).materials@.len() && i != handle
                ==> final(self).materials@[i] == old(self).materials@[i],
    {
        if handle >= self.materials.len() || res.quadrant >= QUADRANTS {
            return false;
        }
        let ghost before = self.materials@;
        let m = &mut self.materials[handle];
        let done = match m.noise {
            Some(ref mut b) => b.populate(res, window),
            None => false,
        };
        if done {
            m.last_populated = Some(res);
        }
        proof {
            assert forall|i: int| 0 <= i < self.materials@.len() implies (#[trigger] self.materials@[i]).wf() by {
                if i != handle {
                    assert(self.materials@[i] == before[i]);
                }
            }
        }
        done
    }

    /// What the rendering surface may read for material `handle`: its overlay,
    /// only once `Ready`, and then sized for the viewport it was last sized for.
    pub fn overlay(&self, handle: usize) -> (r: Option<&OverlayBuffer>)
        requires
            self.wf(),
        ensures
            r.is_some() <==> handle < self.materials@.len() && self.materials@[handle as int].noise.is_some(),
            r.is_some() ==> {
                let m = self.materials@[handle as int];
                &&& *r.unwrap() == m.noise.unwrap()
                &&& r.unwrap().dims() == dims_for(m.sizing.unwrap().viewport, m.sizing.unwrap().tile)
            },
    {
        if handle >= self.materials.len() {
            return None;
        }
        match &self.materials[handle].noise {
            Some(b) => Some(b),
            None => None,
        }
    }

    /// Requests for a batch of resize events: only the latest size is used.
    pub fn on_resize(&self, events: &Vec<Extent>) -> (r: Vec<GenNewNoiseImage>)
        ensures
            r@ == resize_requests(events@, self.materials@.len() as int),
    {
        let mut r: Vec<GenNewNoiseImage> = Vec::new();
        if events.len() == 0 {
            return r;
        }
        let last = events[events.len() - 1];
        let n = self.materials.len();
        let mut i: usize = 0;
        while i < n
            invariant
                n == self.materials@.len(),
                events@.len() > 0,
                last == events@.last(),
                i <= n,
                r@ == resize_requests(events@, n as int).take(i as int),
            decreases n - i,
        {
            r.push(GenNewNoiseImage { screen_size: last, handle: i });
            i = i + 1;
            proof {
                assert(r@ =~= resize_requests(events@, n as int).take(i as int));
            }
        }
        proof {
            assert(r@ =~= resize_requests(events@, n as int));
        }
        r
    }

    /// Requests for the materials whose base tile is among the textures that
    /// finished loading, in material order, carrying the window size.
    pub fn on_image_load(&self, loaded: &HashSet<u64>, window: Extent) -> (r: Vec<GenNewNoiseImage>)
        ensures
            r@ == load_requests(loaded@, self.materials@, window, self.materials@.len() as int),
    {
        let mut r: Vec<GenNewNoiseImage> = Vec::new();
        let n = self.materials.len();
        let mut i: usize = 0;
        while i < n
            invariant
                n == self.materials@.len(),
                i <= n,
                r@ == load_requests(loaded@, self.materials@, window, i as int),
            decreases n - i,
        {
            let texture = self.materials[i].texture;
            let found = loaded.contains(&texture);
            if found {
                r.push(GenNewNoiseImage { screen_size: window, handle: i });
            }
            i = i + 1;
        }
        r
    }
}

} // verus!
