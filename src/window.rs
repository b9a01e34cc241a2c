use vstd::prelude::*;

verus! {

/// Fixed-point scale of a noise sample: `SAMPLE_ONE` stands for 1.0, so a sample
/// of the noise field's range `[-1, 1]` is an integer in `[-SAMPLE_ONE, SAMPLE_ONE]`.
pub const SAMPLE_ONE: i32 = 32768;

/// Largest cell value: a cell holds `[0, 1]` as `[0, CELL_MAX]`.
pub const CELL_MAX: u8 = 255;

/// A rectangle of integer lattice points of the noise field.
#[derive(Clone, Copy, Debug, PartialEq, Eq, Structural)]
pub struct WindowShape {
    pub origin_x: i64,
    pub origin_y: i64,
    pub width: usize,
    pub height: usize,
}

/// Noise samples over a `WindowShape`, row by row: the sample of lattice point
/// `(origin_x + i, origin_y + j)` is `samples[j * width + i]`.
#[derive(Debug)]
pub struct NoiseWindow {
    pub shape: WindowShape,
    pub samples: Vec<i32>,
}

/// A sample lies in the fixed-point range of the noise field.
pub open spec fn sample_in_range(q: int) -> bool {
    -SAMPLE_ONE <= q <= SAMPLE_ONE
}

/// A noise sample of `[-1, 1]` mapped to a cell value of `[0, 1]`, in fixed point.
pub open spec fn normalized(q: int) -> int {
    ((q + SAMPLE_ONE) * CELL_MAX) / (2 * SAMPLE_ONE)
}

impl NoiseWindow {
    pub open spec fn wf(&self) -> bool {
        &&& self.samples@.len() == self.shape.width * self.shape.height
        &&& forall|i: int| 0 <= i < self.samples@.len() ==> sample_in_range(#[trigger] self.samples@[i] as int)
    }

    /// The sample at window-local column `i` and row `j`.
    pub open spec fn local(&self, i: int, j: int) -> int {
        self.samples@[j * self.shape.width + i] as int
    }

    /// The sample at lattice point `(x, y)`.
    pub open spec fn at_lattice(&self, x: int, y: int) -> int {
        self.local(x - self.shape.origin_x, y - self.shape.origin_y)
    }

    /// Builds a window from samples laid out row by row; `None` when the count
    /// does not match the shape or a sample is outside `[-SAMPLE_ONE, SAMPLE_ONE]`.
    pub fn new(shape: WindowShape, samples: Vec<i32>) -> (r: Option<NoiseWindow>)
        ensures
            r.is_some() <==> (samples@.len() == shape.width * shape.height
                && forall|i: int| 0 <= i < samples@.len() ==> sample_in_range(#[trigger] samples@[i] as int)),
            r.is_some() ==> r.unwrap().wf() && r.unwrap().shape == shape && r.unwrap().samples@ == samples@,
    {
        let len: usize = samples.len();
        let n: Option<usize> = shape.width.checked_mul(shape.height);
        match n {
            None => None,
            Some(n) => {
                if len != n {
                    return None;
                }
                let mut i: usize = 0;
                while i < samples.len()
                    invariant
                        i <= samples@.len(),
                        forall|k: int| 0 <= k < i ==> sample_in_range(#[trigger] samples@[k] as int),
                    decreases samples@.len() - i,
                {
                    if samples[i] < -SAMPLE_ONE || samples[i] > SAMPLE_ONE {
                        return None;
                    }
                    i = i + 1;
                }
                Some(NoiseWindow { shape, samples })
            },
        }
    }
}

/// Normalization stays in range: every sample of the noise field's range maps to
/// a cell value in `[0, CELL_MAX]`, the ends of the range to the ends, and
/// larger samples never to smaller values.
pub proof fn lemma_normalized_in_range(q: int, p: int)
    requires
        sample_in_range(q),
        sample_in_range(p),
    ensures
        0 <= normalized(q) <= CELL_MAX,
        normalized(-SAMPLE_ONE as int) == 0,
        normalized(SAMPLE_ONE as int) == CELL_MAX,
        q <= p ==> normalized(q) <= normalized(p),
{
    assert(0 <= (q + SAMPLE_ONE) * 255 <= 65536 * 255) by (nonlinear_arith)
        requires 0 <= q + 32768 <= 65536;
    vstd::arithmetic::div_mod::lemma_div_is_ordered(0, (q + SAMPLE_ONE) * 255, 65536);
    vstd::arithmetic::div_mod::lemma_div_is_ordered((q + SAMPLE_ONE) * 255, 65536int * 255, 65536);
    if q <= p {
        assert((q + SAMPLE_ONE) * 255 <= (p + SAMPLE_ONE) * 255) by (nonlinear_arith)
            requires q <= p;
        vstd::arithmetic::div_mod::lemma_div_is_ordered((q + SAMPLE_ONE) * 255, (p + SAMPLE_ONE) * 255, 65536);
    }
}

/// Maps one noise sample to its cell value.
pub fn normalize(q: i32) -> (r: u8)
    requires
        sample_in_range(q as int),
    ensures
        r as int == normalized(q as int),
{
    let shifted: u32 = (q as i64 + SAMPLE_ONE as i64) as u32;
    proof {
        assert(shifted * 255 <= 65536 * 255) by (nonlinear_arith)
            requires shifted <= 65536;
    }
    let scaled: u32 = shifted * (CELL_MAX as u32) / (2 * SAMPLE_ONE as u32);
    proof {
        vstd::arithmetic::div_mod::lemma_div_is_ordered(shifted * 255, 65536int * 255, 65536);
    }
    scaled as u8
}

} // verus!
