//! Second-order (biquad) filter sections and the streaming filter state used
//! to realize the K-weighting pre-filter.

use vstd::prelude::*;

use crate::source::SampleSource;

verus! {

/// Fixed-point scale: this many units stand for amplitude 1.0.
pub const SCALE: i64 = 1073741824;

/// Largest sample magnitude the filter pipeline accepts and produces
/// (amplitude 16.0). Filter outputs are clipped here, which gives ample
/// headroom over the unit-range input the measurement is defined for while
/// keeping every later sum of squares comfortably inside machine integers.
pub const AMP_LIMIT: i64 = 0x4_0000_0000;

/// Bound on the magnitude of a single filter coefficient (4.0).
pub const COEF_LIMIT: i64 = 0x1_0000_0000;

/// A second-order filter definition: two feedback coefficients and three
/// feed-forward coefficients, as fixed-point numbers scaled by [`SCALE`].
#[derive(Clone, Copy, PartialEq, Eq, Structural, Debug)]
pub struct BiQuad {
    pub a0: i64,
    pub a1: i64,
    pub b0: i64,
    pub b1: i64,
    pub b2: i64,
}

impl BiQuad {
    /// Every coefficient is small enough that one filter step cannot
    /// overflow its 128-bit accumulator.
    pub open spec fn wf(self) -> bool {
        &&& -COEF_LIMIT <= self.a0 <= COEF_LIMIT
        &&& -COEF_LIMIT <= self.a1 <= COEF_LIMIT
        &&& -COEF_LIMIT <= self.b0 <= COEF_LIMIT
        &&& -COEF_LIMIT <= self.b1 <= COEF_LIMIT
        &&& -COEF_LIMIT <= self.b2 <= COEF_LIMIT
    }

    /// The first stage of the K-weighting pre-filter (a high-shelf boost),
    /// with the reference coefficients rounded to fixed point.
    pub open spec fn stage_1_spec() -> BiQuad {
        BiQuad {
            a0: -1815331593i64,
            a1: 786495243,
            b0: 1648327767,
            b1: -2890186776i64,
            b2: 1286764483,
        }
    }

    /// The second stage of the K-weighting pre-filter (a high-pass),
    /// with the reference coefficients rounded to fixed point.
    pub open spec fn stage_2_spec() -> BiQuad {
        BiQuad {
            a0: -2136797184i64,
            a1: 1063081984,
            b0: 1073741824,
            b1: -2147483648i64,
            b2: 1073741824,
        }
    }

    /// Constant coefficient set for stage 1 of the pre-filter.
    pub fn ebu_prefilter_stage_1() -> (f: BiQuad)
        ensures
            f == BiQuad::stage_1_spec(),
            f.wf(),
    {
        BiQuad {
            a0: -1815331593i64,
            a1: 786495243,
            b0: 1648327767,
            b1: -2890186776i64,
            b2: 1286764483,
        }
    }

    /// Constant coefficient set for stage 2 of the pre-filter.
    pub fn ebu_prefilter_stage_2() -> (f: BiQuad)
        ensures
            f == BiQuad::stage_2_spec(),
            f.wf(),
    {
        BiQuad {
            a0: -2136797184i64,
            a1: 1063081984,
            b0: 1073741824,
            b1: -2147483648i64,
            b2: 1073741824,
        }
    }
}

/// The two-sample input and output history of one filter stream. After
/// processing sample n, `x1`/`y1` hold sample n and `x2`/`y2` hold sample
/// n - 1; all four start at zero.
#[derive(Clone, Copy, PartialEq, Eq, Structural, Debug)]
pub struct FilterState {
    pub x1: i64,
    pub x2: i64,
    pub y1: i64,
    pub y2: i64,
}

impl FilterState {
    /// All history values lie within the pipeline's amplitude limit.
    pub open spec fn bounded(self) -> bool {
        &&& -AMP_LIMIT <= self.x1 <= AMP_LIMIT
        &&& -AMP_LIMIT <= self.x2 <= AMP_LIMIT
        &&& -AMP_LIMIT <= self.y1 <= AMP_LIMIT
        &&& -AMP_LIMIT <= self.y2 <= AMP_LIMIT
    }

    /// The all-zero history a fresh filter stream starts from.
    pub open spec fn zero_spec() -> FilterState {
        FilterState { x1: 0, x2: 0, y1: 0, y2: 0 }
    }

    /// Fresh all-zero filter history.
    pub fn zero() -> (st: FilterState)
        ensures
            st == FilterState::zero_spec(),
    {
        FilterState { x1: 0, x2: 0, y1: 0, y2: 0 }
    }
}

/// Division that truncates toward zero, for a positive divisor: the rounding
/// the fixed-point filter step uses when it drops the coefficient scale.
pub open spec fn tdiv(a: int, d: int) -> int {
    if a >= 0 {
        a / d
    } else {
        -((-a) / d)
    }
}

/// Clamp a value to the amplitude limit.
pub open spec fn clip(v: int) -> int {
    if v > AMP_LIMIT as int {
        AMP_LIMIT as int
    } else if v < -(AMP_LIMIT as int) {
        -(AMP_LIMIT as int)
    } else {
        v
    }
}

/// The direct-form recurrence before clipping:
/// `(b0*x + b1*x[n-1] + b2*x[n-2] - a0*y[n-1] - a1*y[n-2]) / SCALE`,
/// truncated toward zero.
pub open spec fn raw_out(f: BiQuad, st: FilterState, x: int) -> int {
    tdiv(
        f.b0 * x + f.b1 * st.x1 + f.b2 * st.x2 - f.a0 * st.y1 - f.a1 * st.y2,
        SCALE as int,
    )
}

/// One output sample of the filter: the recurrence result, clipped.
pub open spec fn step_out(f: BiQuad, st: FilterState, x: int) -> int {
    clip(raw_out(f, st, x))
}

/// The history after consuming input `x`: inputs and outputs each shift by
/// one, with the new output in front.
pub open spec fn step_state(f: BiQuad, st: FilterState, x: i64) -> FilterState {
    FilterState { x1: x, x2: st.x1, y1: step_out(f, st, x as int) as i64, y2: st.y1 }
}

proof fn lemma_mul_bound(a: int, b: int, ma: int, mb: int)
    by (nonlinear_arith)
    requires
        -ma <= a <= ma,
        -mb <= b <= mb,
        0 <= ma,
        0 <= mb,
    ensures
        -(ma * mb) <= a * b <= ma * mb,
{
}

/// Divide the 128-bit accumulator by the coefficient scale, truncating
/// toward zero.
fn tdiv_scale(acc: i128) -> (q: i128)
    requires
        -0x100_0000_0000_0000_0000 <= acc <= 0x100_0000_0000_0000_0000,
    ensures
        q as int == tdiv(acc as int, SCALE as int),
        -0x100_0000_0000_0000_0000 <= q <= 0x100_0000_0000_0000_0000,
{
    proof {
        vstd::arithmetic::div_mod::lemma_div_nonincreasing(
            if acc >= 0 { acc as int } else { -(acc as int) },
            SCALE as int,
        );
        vstd::arithmetic::div_mod::lemma_div_pos_is_pos(
            if acc >= 0 { acc as int } else { -(acc as int) },
            SCALE as int,
        );
    }
    if acc >= 0 {
        ((acc as u128) / (SCALE as u128)) as i128
    } else {
        -(((-acc) as u128 / (SCALE as u128)) as i128)
    }
}

/// Feed one input sample through the filter: returns the output sample and
/// shifts it into the history.
pub fn filter_step(f: &BiQuad, st: &mut FilterState, x: i64) -> (y: i64)
    requires
        f.wf(),
        old(st).bounded(),
        -AMP_LIMIT <= x <= AMP_LIMIT,
    ensures
        y as int == step_out(*f, *old(st), x as int),
        *final(st) == step_state(*f, *old(st), x),
        final(st).bounded(),
        -AMP_LIMIT <= y <= AMP_LIMIT,
{
    proof {
        lemma_mul_bound(f.b0 as int, x as int, COEF_LIMIT as int, AMP_LIMIT as int);
        lemma_mul_bound(f.b1 as int, st.x1 as int, COEF_LIMIT as int, AMP_LIMIT as int);
        lemma_mul_bound(f.b2 as int, st.x2 as int, COEF_LIMIT as int, AMP_LIMIT as int);
        lemma_mul_bound(f.a0 as int, st.y1 as int, COEF_LIMIT as int, AMP_LIMIT as int);
        lemma_mul_bound(f.a1 as int, st.y2 as int, COEF_LIMIT as int, AMP_LIMIT as int);
    }
    let acc: i128 = (f.b0 as i128) * (x as i128) + (f.b1 as i128) * (st.x1 as i128)
        + (f.b2 as i128) * (st.x2 as i128) - (f.a0 as i128) * (st.y1 as i128)
        - (f.a1 as i128) * (st.y2 as i128);
    let q = tdiv_scale(acc);
    let y: i64 = if q > AMP_LIMIT as i128 {
        AMP_LIMIT
    } else if q < -AMP_LIMIT as i128 {
        -AMP_LIMIT
    } else {
        q as i64
    };
    st.x2 = st.x1;
    st.x1 = x;
    st.y2 = st.y1;
    st.y1 = y;
    y
}

/// The whole output of a filter with coefficients `f` that starts in history
/// `st` and consumes the input sequence `s`: exactly one output sample per
/// input sample, by the direct-form recurrence.
pub open spec fn filtered(f: BiQuad, st: FilterState, s: Seq<i64>) -> Seq<i64>
    decreases s.len(),
{
    if s.len() == 0 {
        Seq::empty()
    } else {
        seq![step_out(f, st, s[0] as int) as i64] + filtered(
            f,
            step_state(f, st, s[0]),
            s.drop_first(),
        )
    }
}

/// A filter stream emits exactly one output sample per input sample.
pub proof fn lemma_filter_preserves_length(f: BiQuad, st: FilterState, s: Seq<i64>)
    ensures
        filtered(f, st, s).len() == s.len(),
    decreases s.len(),
{
    if s.len() > 0 {
        lemma_filter_preserves_length(f, step_state(f, st, s[0]), s.drop_first());
    }
}

/// A stateful filter stream: applies one coefficient set to the samples of
/// an arbitrary upstream source, one output per input.
pub struct BiQuadIter<S: SampleSource> {
    f: BiQuad,
    st: FilterState,
    input: S,
}

impl<S: SampleSource> BiQuadIter<S> {
    /// Start a filter stream over `input` with all-zero history.
    pub fn new(filter: BiQuad, input: S) -> (it: BiQuadIter<S>)
        requires
            filter.wf(),
            input.inv(),
        ensures
            it.inv(),
            it.remaining() == filtered(filter, FilterState::zero_spec(), input.remaining()),
    {
        BiQuadIter { f: filter, st: FilterState::zero(), input }
    }
}

impl<S: SampleSource> SampleSource for BiQuadIter<S> {
    closed spec fn inv(&self) -> bool {
        &&& self.f.wf()
        &&& self.st.bounded()
        &&& self.input.inv()
    }

    closed spec fn remaining(&self) -> Seq<i64> {
        filtered(self.f, self.st, self.input.remaining())
    }

    fn next_sample(&mut self) -> (r: Option<i64>) {
        match self.input.next_sample() {
            None => None,
            Some(x) => {
                let y = filter_step(&self.f, &mut self.st, x);
                proof {
                    assert(self.remaining() =~= old(self).remaining().drop_first());
                }
                Some(y)
            },
        }
    }
}

} // verus!
