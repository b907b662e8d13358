//! Perceptual loudness measurement for single-channel 48kHz audio, in the
//! style of the ITU-R BS.1770 / EBU R128 method, over fixed-point samples.
//!
//! Samples are signed fixed-point numbers with [`biquad::SCALE`] representing
//! amplitude 1.0. The measurement runs entirely in the linear energy domain:
//! the result of [`loudness`] is a gated mean square (squared-amplitude scale,
//! `SCALE * SCALE` representing 1.0), which a caller converts to LUFS with
//! the monotone map `-0.691 + 10 * log10(ms / (SCALE * SCALE))`. Working in
//! the linear domain keeps every step exact integer arithmetic; the single
//! logarithm lives at the caller's edge.

use vstd::prelude::*;

pub mod biquad;
pub mod gating;
pub mod source;

use crate::biquad::{filtered, BiQuad, BiQuadIter, FilterState, AMP_LIMIT};
use crate::gating::{
    gated_mean_square, gated_spec, in_range, ABS_GATE_MS, HOP, WINDOW,
};
use crate::source::SampleSource;

verus! {

/// The perceptually weighted version of a signal: the whole input run
/// through pre-filter stage 1 and then stage 2, both starting from all-zero
/// history. Same length as the input.
pub open spec fn prefiltered(s: Seq<i64>) -> Seq<i64> {
    filtered(
        BiQuad::stage_2_spec(),
        FilterState::zero_spec(),
        filtered(BiQuad::stage_1_spec(), FilterState::zero_spec(), s),
    )
}

/// Apply the two-stage K-weighting pre-filter to a whole signal and collect
/// the result: one output sample per input sample.
pub fn prefilter<S: SampleSource>(input: S) -> (out: Vec<i64>)
    requires
        input.inv(),
    ensures
        out@ == prefiltered(input.remaining()),
        out@.len() == input.remaining().len(),
        in_range(out@),
{
    let ghost original = input.remaining();
    let q1 = BiQuad::ebu_prefilter_stage_1();
    let q2 = BiQuad::ebu_prefilter_stage_2();
    let f1 = BiQuadIter::new(q1, input);
    let mut f2 = BiQuadIter::new(q2, f1);
    proof {
        crate::biquad::lemma_filter_preserves_length(
            BiQuad::stage_1_spec(),
            FilterState::zero_spec(),
            original,
        );
        crate::biquad::lemma_filter_preserves_length(
            BiQuad::stage_2_spec(),
            FilterState::zero_spec(),
            filtered(BiQuad::stage_1_spec(), FilterState::zero_spec(), original),
        );
    }
    let mut out: Vec<i64> = Vec::new();
    loop
        invariant
            f2.inv(),
            out@ + f2.remaining() == prefiltered(original),
            forall|i: int| 0 <= i < out@.len() ==> -AMP_LIMIT <= #[trigger] out@[i] <= AMP_LIMIT,
        ensures
            out@ == prefiltered(original),
            in_range(out@),
        decreases f2.remaining().len(),
    {
        match f2.next_sample() {
            Some(y) => {
                out.push(y);
                proof {
                    assert(out@ + f2.remaining() =~= prefiltered(original));
                }
            },
            None => {
                proof {
                    assert(out@ + f2.remaining() =~= out@);
                }
                break ;
            },
        }
    }
    out
}

/// The loudness of a signal in the linear energy domain: the two-pass gated
/// mean square of its perceptually weighted version.
///
/// Pass one gates at the absolute threshold [`ABS_GATE_MS`] (-70 on the
/// decibel loudness scale). Pass two gates ten decibels below the pass-one
/// result, which in the energy domain is that result divided by ten. When
/// pass one admits no window its result stands for negative infinity, and
/// the pass-two threshold — still negative infinity — becomes the fully open
/// zero gate.
pub open spec fn loudness_spec(s: Seq<i64>) -> Option<int> {
    let pf = prefiltered(s);
    match gated_spec(pf, ABS_GATE_MS as int, 1) {
        None => gated_spec(pf, 0, 1),
        Some(l1) => gated_spec(pf, l1, 10),
    }
}

/// The perceptual loudness of a signal, as a gated mean square on the
/// squared-amplitude scale (`SCALE * SCALE` units stand for 1.0). `None`,
/// like a mean square of zero, denotes no measurable level: both map to a
/// loudness of negative infinity under the caller's decibel conversion
/// `-0.691 + 10 * log10(ms / (SCALE * SCALE))`.
pub fn loudness<S: SampleSource>(signal: S) -> (r: Option<u128>)
    requires
        signal.inv(),
    ensures
        r is None <==> loudness_spec(signal.remaining()) is None,
        r matches Some(v) ==> loudness_spec(signal.remaining()) == Some(v as int),
{
    let filtered_buf = prefilter(signal);
    let first = gated_mean_square(&filtered_buf, ABS_GATE_MS, 1);
    match first {
        None => gated_mean_square(&filtered_buf, 0, 1),
        Some(v) => gated_mean_square(&filtered_buf, v, 10),
    }
}

/// The two-pass cascade never loses a measured level: whenever the absolute
/// pass admits a window, the relative pass — gating a tenth of the pass-one
/// average — admits one too, so the signal's loudness is measurable.
pub proof fn lemma_measured_level_survives(s: Seq<i64>)
    requires
        gated_spec(prefiltered(s), ABS_GATE_MS as int, 1) is Some,
    ensures
        loudness_spec(s) is Some,
{
    crate::gating::lemma_relative_pass_keeps_level(prefiltered(s), ABS_GATE_MS as int, 1);
}

/// A filter stream maps silence to silence: with all-zero history, all-zero
/// input keeps the history at zero and emits zero.
pub proof fn lemma_silent_filter(f: BiQuad, st: FilterState, s: Seq<i64>)
    requires
        st == FilterState::zero_spec(),
        forall|i: int| 0 <= i < s.len() ==> s[i] == 0i64,
    ensures
        filtered(f, st, s).len() == s.len(),
        forall|i: int| 0 <= i < s.len() ==> filtered(f, st, s)[i] == 0i64,
    decreases s.len(),
{
    crate::biquad::lemma_filter_preserves_length(f, st, s);
    if s.len() > 0 {
        vstd::arithmetic::div_mod::lemma_div_of0(crate::biquad::SCALE as int);
        vstd::arithmetic::mul::lemma_mul_by_zero_is_zero(f.a0 as int);
        vstd::arithmetic::mul::lemma_mul_by_zero_is_zero(f.a1 as int);
        vstd::arithmetic::mul::lemma_mul_by_zero_is_zero(f.b0 as int);
        vstd::arithmetic::mul::lemma_mul_by_zero_is_zero(f.b1 as int);
        vstd::arithmetic::mul::lemma_mul_by_zero_is_zero(f.b2 as int);
        assert(crate::biquad::step_out(f, st, s[0] as int) == 0);
        assert(crate::biquad::step_state(f, st, s[0]) == FilterState::zero_spec());
        lemma_silent_filter(f, st, s.drop_first());
        assert forall|i: int| 0 <= i < s.len() implies filtered(f, st, s)[i] == 0i64 by {
            if i > 0 {
                assert(filtered(f, st, s)[i] == filtered(f, st, s.drop_first())[i - 1]);
            }
        }
    }
}

/// A silent signal of at least one window's length has no measurable level:
/// its loudness is the zero mean square, negative infinity after the decibel
/// conversion. The absolute gate admits nothing, so the relative pass runs
/// with the fully open gate over all-zero windows.
pub proof fn lemma_silence_has_no_level(s: Seq<i64>)
    requires
        s.len() >= WINDOW,
        forall|i: int| 0 <= i < s.len() ==> s[i] == 0i64,
    ensures
        loudness_spec(s) == Some(0int),
{
    let inner = filtered(BiQuad::stage_1_spec(), FilterState::zero_spec(), s);
    let pf = prefiltered(s);
    lemma_silent_filter(BiQuad::stage_1_spec(), FilterState::zero_spec(), s);
    lemma_silent_filter(BiQuad::stage_2_spec(), FilterState::zero_spec(), inner);
    crate::gating::lemma_silent_gate_rejects_all(pf, 0, ABS_GATE_MS as int, 1);
    assert(gated_spec(pf, ABS_GATE_MS as int, 1) is None);
    crate::gating::lemma_open_gate_admits_all(pf, 0);
    crate::gating::lemma_window_count_nonneg(pf, HOP as int);
    assert(crate::gating::window_count_from(pf, 0) >= 1);
    crate::gating::lemma_silent_gate_total(pf, 0, 0, 1);
    vstd::arithmetic::div_mod::lemma_div_of0(crate::gating::window_count_from(pf, 0));
}

} // verus!
