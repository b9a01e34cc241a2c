use std::collections::HashSet;

use infini_tile::quadrant::{resolve_quadrant, CameraOffset};
use infini_tile::sync::{GenNewNoiseImage, LoadOutcome, Sizing, SyncController, SyncState, TileMaterial};
use infini_tile::tiling::{Dims, Extent};
use infini_tile::window::NoiseWindow;

const TILE: Extent = Extent { width: 16, height: 16 };

fn ids(v: &[u64]) -> HashSet<u64> {
    v.iter().copied().collect()
}

fn ext(width: u32, height: u32) -> Extent {
    Extent { width, height }
}

fn flat(shape: infini_tile::window::WindowShape, value: i32) -> NoiseWindow {
    NoiseWindow::new(shape, vec![value; shape.width * shape.height]).unwrap()
}

fn two_surfaces() -> SyncController {
    let mut c = SyncController::new(false);
    assert_eq!(c.register(10), 0);
    assert_eq!(c.register(20), 1);
    c
}

#[test]
fn new_material_is_unset() {
    let m = TileMaterial::new(5);
    assert_eq!(m.texture, 5);
    assert!(m.noise.is_none());
    assert_eq!(m.state(None), SyncState::Unloaded);
    assert_eq!(m.state(Some(ext(0, 16))), SyncState::Unloaded);
    assert_eq!(m.state(Some(TILE)), SyncState::Sizing);
}

#[test]
fn material_outcomes() {
    let mut m = TileMaterial::new(1);
    assert_eq!(m.load_noise_map(ext(800, 600), None), LoadOutcome::TextureNotLoaded);
    assert_eq!(m.load_noise_map(ext(800, 600), Some(ext(16, 0))), LoadOutcome::TextureNotLoaded);
    assert!(m.noise.is_none());
    assert_eq!(m.load_noise_map(ext(u32::MAX, u32::MAX), Some(ext(1, 1))), LoadOutcome::TooLarge);
    assert!(m.noise.is_none());
    let d = Dims { width: 52, height: 40 };
    assert_eq!(m.load_noise_map(ext(800, 600), Some(TILE)), LoadOutcome::Created(d));
    assert_eq!(m.state(Some(TILE)), SyncState::Ready);
    assert_eq!(m.load_noise_map(ext(800, 600), Some(TILE)), LoadOutcome::Unchanged(d));
    assert_eq!(m.noise.as_ref().unwrap().allocations(), 1);
    assert_eq!(m.load_noise_map(ext(801, 600), Some(TILE)), LoadOutcome::Resized(Dims { width: 53, height: 40 }));
    assert_eq!(m.noise.as_ref().unwrap().allocations(), 2);
    assert_eq!(m.sizing, Some(Sizing { viewport: ext(801, 600), tile: TILE }));
}

#[test]
fn regenerate_for_unknown_material() {
    let mut c = two_surfaces();
    let req = GenNewNoiseImage { screen_size: ext(800, 600), handle: 2 };
    assert_eq!(c.load_noise_map(req, Some(TILE)), LoadOutcome::MaterialNotFound);
    assert!(c.overlay(0).is_none() && c.overlay(1).is_none());
}

#[test]
fn regenerate_touches_only_its_material() {
    let mut c = two_surfaces();
    let req = GenNewNoiseImage { screen_size: ext(800, 600), handle: 1 };
    assert_eq!(c.load_noise_map(req, Some(TILE)), LoadOutcome::Created(Dims { width: 52, height: 40 }));
    assert!(c.overlay(0).is_none());
    assert_eq!(c.overlay(1).unwrap().width(), 52);
}

#[test]
fn resize_batch_uses_only_latest_size() {
    let c = two_surfaces();
    assert!(c.on_resize(&vec![]).is_empty());
    let reqs = c.on_resize(&vec![ext(800, 600), ext(801, 600), ext(802, 600)]);
    assert_eq!(
        reqs,
        vec![
            GenNewNoiseImage { screen_size: ext(802, 600), handle: 0 },
            GenNewNoiseImage { screen_size: ext(802, 600), handle: 1 },
        ]
    );
}

#[test]
fn image_load_requests_follow_material_order() {
    let mut c = two_surfaces();
    c.register(10);
    let reqs = c.on_image_load(&ids(&[99, 10]), ext(640, 480));
    assert_eq!(
        reqs,
        vec![
            GenNewNoiseImage { screen_size: ext(640, 480), handle: 0 },
            GenNewNoiseImage { screen_size: ext(640, 480), handle: 2 },
        ]
    );
    assert!(c.on_image_load(&ids(&[]), ext(640, 480)).is_empty());
    assert!(c.on_image_load(&ids(&[7]), ext(640, 480)).is_empty());
}

#[test]
fn rapid_resizes_apply_only_the_last() {
    let mut c = two_surfaces();
    let tiles = vec![Some(TILE), Some(TILE)];
    let out = c.process_events(&vec![ext(800, 600), ext(801, 600), ext(802, 600)], &ids(&[]), ext(802, 600), &tiles);
    let d = Dims { width: 53, height: 40 };
    assert_eq!(out, vec![LoadOutcome::Created(d), LoadOutcome::Created(d)]);
    for h in 0..2 {
        let b = c.overlay(h).unwrap();
        assert_eq!((b.width(), b.height()), (53, 40));
        assert_eq!(b.allocations(), 1);
        assert_eq!(c.materials[h].sizing, Some(Sizing { viewport: ext(802, 600), tile: TILE }));
    }
}

#[test]
fn texture_ready_then_resize_in_one_cycle() {
    let mut c = two_surfaces();
    let tiles = vec![Some(TILE), None];
    let out = c.process_events(&vec![ext(160, 160)], &ids(&[10]), ext(320, 160), &tiles);
    assert_eq!(
        out,
        vec![
            LoadOutcome::Created(Dims { width: 22, height: 12 }),
            LoadOutcome::Resized(Dims { width: 12, height: 12 }),
            LoadOutcome::TextureNotLoaded,
        ]
    );
    assert_eq!(c.overlay(0).unwrap().width(), 12);
    assert!(c.overlay(1).is_none());
    assert_eq!(c.materials[1].state(tiles[1]), SyncState::Unloaded);
}

#[test]
fn outcomes_follow_request_order() {
    let mut c = two_surfaces();
    c.register(30);
    let tiles = vec![Some(ext(1, 1)), Some(ext(1, 1)), None];
    let out = c.process_events(&vec![ext(u32::MAX, u32::MAX)], &ids(&[20]), ext(64, 64), &tiles);
    assert_eq!(
        out,
        vec![
            LoadOutcome::Created(Dims { width: 66, height: 66 }),
            LoadOutcome::TooLarge,
            LoadOutcome::TooLarge,
            LoadOutcome::TextureNotLoaded,
        ]
    );
    assert!(c.overlay(0).is_none());
    assert_eq!(c.overlay(1).unwrap().width(), 66);
    assert!(c.overlay(2).is_none());
}

#[test]
fn quiet_cycle_changes_nothing() {
    let mut c = two_surfaces();
    let out = c.process_events(&vec![], &ids(&[]), ext(800, 600), &vec![Some(TILE), Some(TILE)]);
    assert!(out.is_empty());
    assert!(c.overlay(0).is_none() && c.overlay(1).is_none());
}

#[test]
fn missing_tile_entries_count_as_not_loaded() {
    let mut c = two_surfaces();
    let out = c.process_events(&vec![ext(100, 100)], &ids(&[]), ext(100, 100), &vec![Some(TILE)]);
    assert_eq!(out, vec![LoadOutcome::Created(Dims { width: 9, height: 9 }), LoadOutcome::TextureNotLoaded]);
}

#[test]
fn no_overlay_before_ready() {
    let mut c = two_surfaces();
    let cam = CameraOffset { x: 0, y: 0 };
    assert!(c.overlay(0).is_none());
    assert!(c.sampling_request(0, cam).is_none());
    assert!(c.sampling_request(5, cam).is_none());
    let shape = infini_tile::window::WindowShape { origin_x: -1, origin_y: -1, width: 4, height: 4 };
    let res = resolve_quadrant(cam, TILE);
    assert!(!c.populate(0, res, &flat(shape, 0)));
}

#[test]
fn cycle_populates_ready_surface() {
    let mut c = two_surfaces();
    c.process_events(&vec![ext(16, 32)], &ids(&[]), ext(16, 32), &vec![Some(TILE), Some(TILE)]);
    let cam = CameraOffset { x: 40 * 256, y: -8 * 256 };
    let (res, shape) = c.sampling_request(0, cam).unwrap();
    assert_eq!(res, resolve_quadrant(cam, TILE));
    assert_eq!((shape.width, shape.height), (5, 6));
    assert_eq!((shape.origin_x, shape.origin_y), (res.base_x - 1, res.base_y - 1));
    assert!(c.populate(0, res, &flat(shape, -32768)));
    assert!(c.overlay(0).unwrap().data().iter().all(|v| *v == 0));
    assert!(c.overlay(1).unwrap().data().iter().all(|v| *v == 255));
    assert_eq!(c.materials[0].last_populated, Some(res));
    // without skipping, an unchanged camera is sampled again
    assert!(c.sampling_request(0, cam).is_some());
}

#[test]
fn skipping_unchanged_resolution() {
    let mut c = SyncController::new(true);
    c.register(3);
    c.process_events(&vec![ext(16, 16)], &ids(&[]), ext(16, 16), &vec![Some(TILE)]);
    let cam = CameraOffset { x: 100, y: 100 };
    let (res, shape) = c.sampling_request(0, cam).unwrap();
    assert!(c.populate(0, res, &flat(shape, 0)));
    assert!(c.sampling_request(0, cam).is_none());
    // same tile, same half: still the same resolution
    assert!(c.sampling_request(0, CameraOffset { x: 200, y: 100 }).is_none());
    // across the half-tile mark
    assert!(c.sampling_request(0, CameraOffset { x: 2048, y: 100 }).is_some());
    // a resize that reallocates forces a new population
    c.process_events(&vec![ext(48, 16)], &ids(&[]), ext(48, 16), &vec![Some(TILE)]);
    assert!(c.sampling_request(0, cam).is_some());
}
