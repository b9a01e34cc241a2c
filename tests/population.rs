use infini_tile::buffer::{OverlayBuffer, BLANK};
use infini_tile::quadrant::{layer_offset, resolve_quadrant, CameraOffset, Resolution, SUBPIXELS};
use infini_tile::tiling::Extent;
use infini_tile::window::{normalize, NoiseWindow, WindowShape, CELL_MAX, SAMPLE_ONE};
use noise::{NoiseFn, SuperSimplex};

const TILE: Extent = Extent { width: 16, height: 16 };

fn sized_3x3() -> OverlayBuffer {
    let mut b = OverlayBuffer::new();
    b.resize_for(Extent { width: 16, height: 16 }, TILE);
    assert_eq!((b.width(), b.height()), (3, 3));
    b
}

// samples that tell their lattice point apart: local index k holds 1000 k - 12000
fn ramp(shape: WindowShape) -> NoiseWindow {
    let n = shape.width * shape.height;
    let samples: Vec<i32> = (0..n as i32).map(|k| k * 1000 - 12000).collect();
    NoiseWindow::new(shape, samples).unwrap()
}

fn expected(win: &NoiseWindow, res: Resolution, layer: usize, x: usize, y: usize) -> u8 {
    let (dx, dy) = layer_offset(res.quadrant, layer);
    let i = (x as i64 + res.base_x + dx - win.shape.origin_x) as usize;
    let j = (y as i64 + res.base_y + dy - win.shape.origin_y) as usize;
    normalize(win.samples[j * win.shape.width + i])
}

fn quantize(v: f64) -> i32 {
    (v * SAMPLE_ONE as f64).round().clamp(-(SAMPLE_ONE as f64), SAMPLE_ONE as f64) as i32
}

#[test]
fn normalize_maps_range_ends_and_middle() {
    assert_eq!(normalize(-SAMPLE_ONE), 0);
    assert_eq!(normalize(SAMPLE_ONE), CELL_MAX);
    assert_eq!(normalize(0), 127);
    assert_eq!(normalize(SAMPLE_ONE / 2), 191);
    assert_eq!(normalize(-SAMPLE_ONE / 2), 63);
}

#[test]
fn normalize_stays_in_range_over_all_samples() {
    let mut last = 0u8;
    for q in -SAMPLE_ONE..=SAMPLE_ONE {
        let v = normalize(q);
        assert!(v >= last);
        last = v;
    }
    assert_eq!(last, CELL_MAX);
}

#[test]
fn window_rejects_bad_samples() {
    let shape = WindowShape { origin_x: 0, origin_y: 0, width: 2, height: 2 };
    assert!(NoiseWindow::new(shape, vec![0, 0, 0]).is_none());
    assert!(NoiseWindow::new(shape, vec![0, 0, 0, SAMPLE_ONE + 1]).is_none());
    assert!(NoiseWindow::new(shape, vec![-SAMPLE_ONE - 1, 0, 0, 0]).is_none());
    assert!(NoiseWindow::new(shape, vec![-SAMPLE_ONE, 0, 0, SAMPLE_ONE]).is_some());
    let huge = WindowShape { origin_x: 0, origin_y: 0, width: usize::MAX, height: 2 };
    assert!(NoiseWindow::new(huge, vec![]).is_none());
}

#[test]
fn sampling_shape_surrounds_the_buffer() {
    let b = sized_3x3();
    let res = Resolution { base_x: 4, base_y: -2, quadrant: 0 };
    assert_eq!(b.sampling_shape(res), WindowShape { origin_x: 3, origin_y: -3, width: 5, height: 5 });
}

#[test]
fn populate_writes_offset_samples() {
    let mut b = sized_3x3();
    let res = resolve_quadrant(CameraOffset { x: 0, y: 0 }, TILE);
    let win = ramp(b.sampling_shape(res));
    assert!(b.populate(res, &win));
    assert_eq!(res.quadrant, 2);
    // layer 0 of quadrant 2 is offset (1, 1): cell (0, 0) reads local (2, 2) = 12 -> sample 0
    assert_eq!(b.cell_at(0, 0, 0), Some(127));
    // layer 2 is offset (0, 0): cell (2, 1) reads local (3, 2) = 13 -> sample 1000
    assert_eq!(b.cell_at(2, 2, 1), Some(normalize(1000)));
    assert_eq!(normalize(1000), 131);
    for layer in 0..4 {
        for y in 0..3 {
            for x in 0..3 {
                assert_eq!(b.cell_at(layer, x, y), Some(expected(&win, res, layer, x, y)));
            }
        }
    }
    assert_eq!(b.allocations(), 1);
}

#[test]
fn populate_refuses_a_mismatched_window() {
    let mut b = sized_3x3();
    let res = Resolution { base_x: 0, base_y: 0, quadrant: 1 };
    let shifted = ramp(WindowShape { origin_x: 0, origin_y: -1, width: 5, height: 5 });
    let small = ramp(WindowShape { origin_x: -1, origin_y: -1, width: 4, height: 5 });
    assert!(!b.populate(res, &shifted));
    assert!(!b.populate(res, &small));
    let low = Resolution { base_x: i64::MIN, base_y: 0, quadrant: 1 };
    assert!(!b.populate(low, &shifted));
    assert!(b.data().iter().all(|v| *v == BLANK));
    assert_eq!(BLANK, 255);
}

#[test]
fn crossing_half_tile_keeps_two_layers() {
    let a = resolve_quadrant(CameraOffset { x: 2047, y: 0 }, TILE);
    let c = resolve_quadrant(CameraOffset { x: 2048, y: 0 }, TILE);
    assert_eq!((a.quadrant, c.quadrant), (2, 1));
    let mut ba = sized_3x3();
    let mut bc = sized_3x3();
    let win = ramp(ba.sampling_shape(a));
    assert!(ba.populate(a, &win));
    assert!(bc.populate(c, &win));
    for y in 0..3 {
        for x in 0..3 {
            assert_eq!(ba.cell_at(2, x, y), bc.cell_at(1, x, y));
            assert_eq!(ba.cell_at(3, x, y), bc.cell_at(0, x, y));
        }
    }
    assert_ne!(ba.cell_at(0, 0, 0), bc.cell_at(0, 0, 0));
}

#[test]
fn crossing_half_tile_vertically_keeps_two_layers() {
    let a = resolve_quadrant(CameraOffset { x: 0, y: 2047 }, TILE);
    let c = resolve_quadrant(CameraOffset { x: 0, y: 2048 }, TILE);
    assert_eq!((a.quadrant, c.quadrant), (2, 3));
    let mut ba = sized_3x3();
    let mut bc = sized_3x3();
    let win = ramp(ba.sampling_shape(a));
    assert!(ba.populate(a, &win));
    assert!(bc.populate(c, &win));
    for y in 0..3 {
        for x in 0..3 {
            // (1, 0) and (0, 0) are in both rows of the table
            assert_eq!(ba.cell_at(1, x, y), bc.cell_at(0, x, y));
            assert_eq!(ba.cell_at(2, x, y), bc.cell_at(3, x, y));
        }
    }
}

#[test]
fn same_seed_same_samples_same_overlay() {
    let field = SuperSimplex::new(0);
    let again = SuperSimplex::new(0);
    let mut b1 = sized_3x3();
    let mut b2 = sized_3x3();
    let res = resolve_quadrant(CameraOffset { x: 5 * 16 * SUBPIXELS as i64 + 77, y: -3 }, TILE);
    let shape = b1.sampling_shape(res);
    let mut s1 = Vec::new();
    let mut s2 = Vec::new();
    for j in 0..shape.height as i64 {
        for i in 0..shape.width as i64 {
            let p = [(shape.origin_x + i) as f64, (shape.origin_y + j) as f64];
            let v1 = field.get(p);
            let v2 = again.get(p);
            assert_eq!(v1.to_bits(), v2.to_bits());
            assert_eq!(v1.to_bits(), field.get(p).to_bits());
            s1.push(quantize(v1));
            s2.push(quantize(v2));
        }
    }
    let w1 = NoiseWindow::new(shape, s1).unwrap();
    let w2 = NoiseWindow::new(shape, s2).unwrap();
    assert!(b1.populate(res, &w1));
    assert!(b2.populate(res, &w2));
    assert_eq!(b1.data(), b2.data());
}

#[test]
fn population_ignores_prior_contents() {
    let mut b1 = sized_3x3();
    let mut b2 = sized_3x3();
    assert!(b2.set_cell(1, 1, 1, 3));
    assert!(b2.set_cell(3, 2, 0, 99));
    let res = resolve_quadrant(CameraOffset { x: -5000, y: 9000 }, TILE);
    let win = ramp(b1.sampling_shape(res));
    assert!(b1.populate(res, &win));
    assert!(b2.populate(res, &win));
    assert_eq!(b1.data(), b2.data());
    assert!(b1.data().iter().any(|v| *v != BLANK));
}
