//! Windowed power measurement and the threshold-gated average in the linear
//! energy domain.
//!
//! A window's mean square is on the squared-amplitude scale: `SCALE * SCALE`
//! units stand for 1.0. Gate thresholds are rational mean-square values
//! `num / den` on that same scale, so a decibel threshold `t` corresponds to
//! `num / den = 10^((t + 0.691) / 10) * SCALE * SCALE`, and subtracting ten
//! decibels from a threshold divides it by ten. Comparing `ms * den >= num`
//! keeps gating exact in integers.

use vstd::prelude::*;

use crate::biquad::AMP_LIMIT;

verus! {

/// Window length: 400ms of samples at 48kHz.
pub const WINDOW: usize = 19200;

/// Hop between window starts: 100ms of samples at 48kHz (75% overlap).
pub const HOP: usize = 4800;

/// The absolute gate, -70 on the decibel loudness scale, as a mean square:
/// `round(10^((-70 + 0.691) / 10) * SCALE * SCALE)`.
pub const ABS_GATE_MS: u128 = 135176046306;

/// Largest possible mean square: the square of [`AMP_LIMIT`].
pub const MS_LIMIT: u128 = 0x10_0000_0000_0000_0000;

/// Every sample of the sequence lies within the pipeline's amplitude limit.
pub open spec fn in_range(s: Seq<i64>) -> bool {
    forall|i: int| 0 <= i < s.len() ==> -AMP_LIMIT <= #[trigger] s[i] <= AMP_LIMIT
}

/// Sum of the squares of a sequence of samples.
pub open spec fn sum_sq(s: Seq<i64>) -> int
    decreases s.len(),
{
    if s.len() == 0 {
        0
    } else {
        sum_sq(s.drop_last()) + s.last() * s.last()
    }
}

/// The mean square of the window starting at `off`: the sum of its squared
/// samples divided by the window length.
pub open spec fn wms_at(s: Seq<i64>, off: int) -> int {
    sum_sq(s.subrange(off, off + WINDOW)) / (WINDOW as int)
}

/// Whether the window starting at `off` passes a gate with the rational
/// mean-square threshold `num / den`.
pub open spec fn admits(s: Seq<i64>, off: int, num: int, den: int) -> bool {
    wms_at(s, off) * den >= num
}

/// Sum of the mean squares of the admitted complete windows at `off`,
/// `off + HOP`, `off + 2*HOP`, ...; a window that would run past the end of
/// the buffer is dropped.
pub open spec fn gated_total_from(s: Seq<i64>, off: int, num: int, den: int) -> int
    decreases s.len() - off,
{
    if off + WINDOW > s.len() {
        0
    } else {
        (if admits(s, off, num, den) {
            wms_at(s, off)
        } else {
            0
        }) + gated_total_from(s, off + HOP, num, den)
    }
}

/// Number of admitted complete windows at `off`, `off + HOP`, ...
pub open spec fn gated_count_from(s: Seq<i64>, off: int, num: int, den: int) -> int
    decreases s.len() - off,
{
    if off + WINDOW > s.len() {
        0
    } else {
        (if admits(s, off, num, den) {
            1int
        } else {
            0int
        }) + gated_count_from(s, off + HOP, num, den)
    }
}

/// Number of all complete windows at `off`, `off + HOP`, ..., gate aside.
pub open spec fn window_count_from(s: Seq<i64>, off: int) -> int
    decreases s.len() - off,
{
    if off + WINDOW > s.len() {
        0
    } else {
        1 + window_count_from(s, off + HOP)
    }
}

/// Sum of the mean squares of all complete windows at `off`, `off + HOP`,
/// ..., gate aside.
pub open spec fn ms_total_from(s: Seq<i64>, off: int) -> int
    decreases s.len() - off,
{
    if off + WINDOW > s.len() {
        0
    } else {
        wms_at(s, off) + ms_total_from(s, off + HOP)
    }
}

/// The gated average in the energy domain: the mean of the mean squares of
/// the windows that reach the threshold `num / den`, or nothing when no window
/// does.
pub open spec fn gated_spec(s: Seq<i64>, num: int, den: int) -> Option<int> {
    if gated_count_from(s, 0, num, den) == 0 {
        None
    } else {
        Some(gated_total_from(s, 0, num, den) / gated_count_from(s, 0, num, den))
    }
}

proof fn lemma_square_bounds(v: int, m: int)
    by (nonlinear_arith)
    requires
        -m <= v <= m,
        0 <= m,
    ensures
        0 <= v * v <= m * m,
{
}

proof fn lemma_square_nonneg(v: int)
    by (nonlinear_arith)
    ensures
        v * v >= 0,
{
}

proof fn lemma_mul_le(a: int, b: int, ma: int, mb: int)
    by (nonlinear_arith)
    requires
        0 <= a <= ma,
        0 <= b <= mb,
    ensures
        a * b <= ma * mb,
{
}

/// The sum of squares is never negative.
pub proof fn lemma_sum_sq_nonneg(s: Seq<i64>)
    ensures
        sum_sq(s) >= 0,
    decreases s.len(),
{
    if s.len() > 0 {
        lemma_sum_sq_nonneg(s.drop_last());
        lemma_square_nonneg(s.last() as int);
    }
}

/// The mean square of one complete window of in-range samples.
pub fn window_mean_square(s: &Vec<i64>, offset: usize) -> (ms: u128)
    requires
        offset + WINDOW <= s@.len(),
        in_range(s@),
    ensures
        ms as int == wms_at(s@, offset as int),
        ms <= MS_LIMIT,
{
    let n = s.len();
    let mut acc: u128 = 0;
    let mut i: usize = offset;
    let end: usize = offset + WINDOW;
    proof {
        assert(end <= n);
    }
    while i < end
        invariant
            end == offset + WINDOW,
            offset <= i <= offset + WINDOW,
            offset + WINDOW <= s@.len(),
            in_range(s@),
            acc as int == sum_sq(s@.subrange(offset as int, i as int)),
            acc as int <= (i - offset) * (MS_LIMIT as int),
        decreases offset + WINDOW - i,
    {
        let v = s[i];
        proof {
            lemma_square_bounds(v as int, AMP_LIMIT as int);
        }
        let sq: u128 = ((v as i128) * (v as i128)) as u128;
        proof {
            assert(s@.subrange(offset as int, i + 1).drop_last() =~= s@.subrange(
                offset as int,
                i as int,
            ));
            assert(s@.subrange(offset as int, i + 1).last() == s@[i as int]);
        }
        acc = acc + sq;
        i = i + 1;
    }
    proof {
        vstd::arithmetic::div_mod::lemma_div_is_ordered(
            acc as int,
            (WINDOW as int) * (MS_LIMIT as int),
            WINDOW as int,
        );
        vstd::arithmetic::div_mod::lemma_div_multiples_vanish(MS_LIMIT as int, WINDOW as int);
        vstd::arithmetic::div_mod::lemma_div_pos_is_pos(acc as int, WINDOW as int);
    }
    acc / (WINDOW as u128)
}

/// The gated average in the energy domain over one buffer of filtered
/// samples: slide a window across the buffer, admit the windows whose mean
/// square reaches `thr_num / thr_den`, and average the admitted mean squares.
/// Returns nothing exactly when no complete window reaches the threshold.
pub fn gated_mean_square(s: &Vec<i64>, thr_num: u128, thr_den: u128) -> (r: Option<u128>)
    requires
        in_range(s@),
        1 <= thr_den <= 1000,
    ensures
        r is None <==> gated_spec(s@, thr_num as int, thr_den as int) is None,
        r matches Some(v) ==> gated_spec(s@, thr_num as int, thr_den as int) == Some(v as int)
            && v <= MS_LIMIT,
{
    let ghost num = thr_num as int;
    let ghost den = thr_den as int;
    if s.len() < WINDOW {
        return None;
    }
    let mut offset: usize = 0;
    let mut total: u128 = 0;
    let mut count: u128 = 0;
    while offset <= s.len() - WINDOW
        invariant
            WINDOW <= s@.len(),
            in_range(s@),
            1 <= den <= 1000,
            num == thr_num as int,
            den == thr_den as int,
            offset <= s@.len(),
            total as int + gated_total_from(s@, offset as int, num, den) == gated_total_from(
                s@,
                0,
                num,
                den,
            ),
            count as int + gated_count_from(s@, offset as int, num, den) == gated_count_from(
                s@,
                0,
                num,
                den,
            ),
            count as int * (HOP as int) <= offset as int,
            total as int <= count as int * (MS_LIMIT as int),
        decreases s@.len() - offset,
    {
        let ms = window_mean_square(s, offset);
        proof {
            lemma_sum_sq_nonneg(s@.subrange(offset as int, offset + WINDOW));
            vstd::arithmetic::div_mod::lemma_div_pos_is_pos(
                sum_sq(s@.subrange(offset as int, offset + WINDOW)),
                WINDOW as int,
            );
        }
        proof {
            lemma_mul_le(ms as int, den, MS_LIMIT as int, 1000);
        }
        if ms * thr_den >= thr_num {
            total = total + ms;
            count = count + 1;
        }
        offset = offset + HOP;
    }
    if count == 0 {
        None
    } else {
        proof {
            vstd::arithmetic::div_mod::lemma_div_is_ordered(
                total as int,
                count as int * (MS_LIMIT as int),
                count as int,
            );
            vstd::arithmetic::div_mod::lemma_div_multiples_vanish(
                MS_LIMIT as int,
                count as int,
            );
            vstd::arithmetic::div_mod::lemma_div_pos_is_pos(total as int, count as int);
        }
        Some(total / count)
    }
}

/// A window's mean square is never negative.
pub proof fn lemma_wms_nonneg(s: Seq<i64>, off: int)
    ensures
        wms_at(s, off) >= 0,
{
    lemma_sum_sq_nonneg(s.subrange(off, off + WINDOW));
    vstd::arithmetic::div_mod::lemma_div_pos_is_pos(
        sum_sq(s.subrange(off, off + WINDOW)),
        WINDOW as int,
    );
}

/// There are never negatively many admitted windows.
pub proof fn lemma_gated_count_nonneg(s: Seq<i64>, off: int, num: int, den: int)
    ensures
        gated_count_from(s, off, num, den) >= 0,
    decreases s.len() - off,
{
    if off + WINDOW <= s.len() {
        lemma_gated_count_nonneg(s, off + HOP, num, den);
    }
}

/// The gated total cannot beat every admitted window: some admitted window's
/// mean square reaches the average. The witness is the `j`-th window after
/// `off`.
proof fn lemma_best_admitted_window(s: Seq<i64>, off: int, num: int, den: int)
    requires
        gated_count_from(s, off, num, den) > 0,
    ensures
        exists|j: int|
            0 <= j && off + j * (HOP as int) + WINDOW <= s.len() && #[trigger] admits(
                s,
                off + j * (HOP as int),
                num,
                den,
            ) && gated_total_from(s, off, num, den) <= gated_count_from(s, off, num, den)
                * wms_at(s, off + j * (HOP as int)),
    decreases s.len() - off,
{
    let pred = |j: int|
        0 <= j && off + j * (HOP as int) + WINDOW <= s.len() && admits(
            s,
            off + j * (HOP as int),
            num,
            den,
        ) && gated_total_from(s, off, num, den) <= gated_count_from(s, off, num, den) * wms_at(
            s,
            off + j * (HOP as int),
        );
    let tail_count = gated_count_from(s, off + HOP, num, den);
    lemma_gated_count_nonneg(s, off + HOP, num, den);
    if tail_count == 0 {
        // The only admitted window is the one at `off` itself.
        lemma_no_admitted_no_total(s, off + HOP, num, den);
        assert(admits(s, off, num, den));
        assert(pred(0));
    } else {
        lemma_best_admitted_window(s, off + HOP, num, den);
        let j2 = choose|j: int|
            0 <= j && (off + HOP) + j * (HOP as int) + WINDOW <= s.len() && #[trigger] admits(
                s,
                (off + HOP) + j * (HOP as int),
                num,
                den,
            ) && gated_total_from(s, off + HOP, num, den) <= gated_count_from(
                s,
                off + HOP,
                num,
                den,
            ) * wms_at(s, (off + HOP) + j * (HOP as int));
        let w2 = wms_at(s, (off + HOP) + j2 * (HOP as int));
        assert((off + HOP) + j2 * (HOP as int) == off + (j2 + 1) * (HOP as int))
            by (nonlinear_arith);
        assert(gated_total_from(s, off + HOP, num, den) <= tail_count * w2);
        if admits(s, off, num, den) {
            let w0 = wms_at(s, off);
            assert(gated_total_from(s, off, num, den) == w0 + gated_total_from(
                s,
                off + HOP,
                num,
                den,
            ));
            assert(gated_count_from(s, off, num, den) == 1 + tail_count);
            if w0 >= w2 {
                vstd::arithmetic::mul::lemma_mul_inequality(w2, w0, tail_count);
                vstd::arithmetic::mul::lemma_mul_is_distributive_add(w0, 1, tail_count);
                assert(w0 * (1 + tail_count) == w0 * 1 + w0 * tail_count);
                assert(gated_total_from(s, off, num, den) <= gated_count_from(s, off, num, den)
                    * w0);
                assert(off + 0 * (HOP as int) == off);
                assert(pred(0));
            } else {
                vstd::arithmetic::mul::lemma_mul_is_distributive_add(w2, 1, tail_count);
                assert(w2 * (1 + tail_count) == w2 * 1 + w2 * tail_count);
                assert(gated_total_from(s, off, num, den) <= gated_count_from(s, off, num, den)
                    * w2);
                assert(wms_at(s, off + (j2 + 1) * (HOP as int)) == w2);
                assert(pred(j2 + 1));
            }
        } else {
            assert(gated_total_from(s, off, num, den) == gated_total_from(s, off + HOP, num, den));
            assert(gated_count_from(s, off, num, den) == tail_count);
            assert(wms_at(s, off + (j2 + 1) * (HOP as int)) == w2);
            assert(pred(j2 + 1));
        }
    }
}

/// Where no window is admitted, the gated total is zero.
proof fn lemma_no_admitted_no_total(s: Seq<i64>, off: int, num: int, den: int)
    requires
        gated_count_from(s, off, num, den) == 0,
    ensures
        gated_total_from(s, off, num, den) == 0,
    decreases s.len() - off,
{
    if off + WINDOW <= s.len() {
        lemma_gated_count_nonneg(s, off + HOP, num, den);
        lemma_no_admitted_no_total(s, off + HOP, num, den);
    }
}

/// One admitted complete window on the hop grid makes the whole count
/// positive.
proof fn lemma_admitted_window_counts(s: Seq<i64>, off: int, j: int, num: int, den: int)
    requires
        0 <= j,
        off + j * (HOP as int) + WINDOW <= s.len(),
        admits(s, off + j * (HOP as int), num, den),
    ensures
        gated_count_from(s, off, num, den) > 0,
    decreases j,
{
    if j == 0 {
        lemma_gated_count_nonneg(s, off + HOP, num, den);
    } else {
        assert(off + j * (HOP as int) == (off + HOP) + (j - 1) * (HOP as int))
            by (nonlinear_arith);
        assert((HOP as int) <= j * (HOP as int)) by (nonlinear_arith)
            requires
                1 <= j,
        ;
        lemma_admitted_window_counts(s, off + HOP, j - 1, num, den);
        lemma_gated_count_nonneg(s, off + HOP, num, den);
    }
}

/// Once one gating pass measures a level, a second pass whose threshold is a
/// tenth of that result (ten decibels below it) measures one too: the best
/// window of the first pass reaches the first pass's average, so the second
/// pass admits at least that window.
pub proof fn lemma_relative_pass_keeps_level(s: Seq<i64>, num: int, den: int)
    requires
        gated_spec(s, num, den) is Some,
    ensures
        gated_spec(s, gated_spec(s, num, den)->Some_0, 10) is Some,
{
    let c = gated_count_from(s, 0, num, den);
    let t = gated_total_from(s, 0, num, den);
    let l1 = t / c;
    lemma_gated_count_nonneg(s, 0, num, den);
    lemma_best_admitted_window(s, 0, num, den);
    let j = choose|j: int|
        0 <= j && 0 + j * (HOP as int) + WINDOW <= s.len() && #[trigger] admits(
            s,
            0 + j * (HOP as int),
            num,
            den,
        ) && gated_total_from(s, 0, num, den) <= gated_count_from(s, 0, num, den) * wms_at(
            s,
            0 + j * (HOP as int),
        );
    let k = 0 + j * (HOP as int);
    let w = wms_at(s, k);
    vstd::arithmetic::div_mod::lemma_div_is_ordered(t, c * w, c);
    vstd::arithmetic::div_mod::lemma_div_multiples_vanish(w, c);
    lemma_wms_nonneg(s, k);
    assert(admits(s, k, l1, 10));
    lemma_admitted_window_counts(s, 0, j, l1, 10);
    lemma_gated_count_nonneg(s, 0, l1, 10);
}

/// The sum of squares of silence is zero.
pub proof fn lemma_sum_sq_zero(s: Seq<i64>)
    requires
        forall|i: int| 0 <= i < s.len() ==> s[i] == 0i64,
    ensures
        sum_sq(s) == 0,
    decreases s.len(),
{
    if s.len() > 0 {
        lemma_sum_sq_zero(s.drop_last());
    }
}

/// Every window of a silent buffer has mean square zero, so any strictly
/// positive gate rejects all of them.
pub proof fn lemma_silent_gate_rejects_all(s: Seq<i64>, off: int, num: int, den: int)
    requires
        off >= 0,
        forall|i: int| 0 <= i < s.len() ==> s[i] == 0i64,
        num > 0,
        den >= 1,
    ensures
        gated_count_from(s, off, num, den) == 0,
    decreases s.len() - off,
{
    if off + WINDOW <= s.len() {
        let w = s.subrange(off, off + WINDOW);
        assert forall|i: int| 0 <= i < w.len() implies w[i] == 0i64 by {
            assert(w[i] == s[off + i]);
        }
        lemma_sum_sq_zero(w);
        vstd::arithmetic::div_mod::lemma_div_of0(WINDOW as int);
        vstd::arithmetic::mul::lemma_mul_by_zero_is_zero(den);
        assert(!admits(s, off, num, den));
        lemma_silent_gate_rejects_all(s, off + HOP, num, den);
    }
}

/// The gated energy of a silent buffer is zero under every threshold.
pub proof fn lemma_silent_gate_total(s: Seq<i64>, off: int, num: int, den: int)
    requires
        off >= 0,
        forall|i: int| 0 <= i < s.len() ==> s[i] == 0i64,
    ensures
        gated_total_from(s, off, num, den) == 0,
    decreases s.len() - off,
{
    if off + WINDOW <= s.len() {
        let w = s.subrange(off, off + WINDOW);
        assert forall|i: int| 0 <= i < w.len() implies w[i] == 0i64 by {
            assert(w[i] == s[off + i]);
        }
        lemma_sum_sq_zero(w);
        vstd::arithmetic::div_mod::lemma_div_of0(WINDOW as int);
        lemma_silent_gate_total(s, off + HOP, num, den);
    }
}

/// A gate whose threshold is zero (the energy-domain image of a threshold of
/// negative infinity) admits every complete window, so the gated sums equal
/// the ungated ones.
pub proof fn lemma_open_gate_admits_all(s: Seq<i64>, off: int)
    ensures
        gated_count_from(s, off, 0, 1) == window_count_from(s, off),
        gated_total_from(s, off, 0, 1) == ms_total_from(s, off),
    decreases s.len() - off,
{
    if off + WINDOW <= s.len() {
        lemma_sum_sq_nonneg(s.subrange(off, off + WINDOW));
        vstd::arithmetic::div_mod::lemma_div_pos_is_pos(
            sum_sq(s.subrange(off, off + WINDOW)),
            WINDOW as int,
        );
        lemma_open_gate_admits_all(s, off + HOP);
    }
}

/// There are never negatively many complete windows.
pub proof fn lemma_window_count_nonneg(s: Seq<i64>, off: int)
    ensures
        window_count_from(s, off) >= 0,
    decreases s.len() - off,
{
    if off + WINDOW <= s.len() {
        lemma_window_count_nonneg(s, off + HOP);
    }
}

/// With a fully open zero threshold, the result is exactly the plain average of all
/// complete windows' mean squares: present as soon as one complete window
/// exists.
pub proof fn lemma_open_gate_average(s: Seq<i64>)
    ensures
        window_count_from(s, 0) == 0 ==> gated_spec(s, 0, 1) is None,
        window_count_from(s, 0) > 0 ==> gated_spec(s, 0, 1) == Some(
            ms_total_from(s, 0) / window_count_from(s, 0),
        ),
{
    lemma_open_gate_admits_all(s, 0);
    lemma_window_count_nonneg(s, 0);
}

} // verus!
