use lufs::biquad::SCALE;
use lufs::gating::{gated_mean_square, window_mean_square};
use lufs::source::VecSource;

/// One unit on the mean-square scale: `SCALE * SCALE`, i.e. amplitude 1.0
/// squared.
const MS_ONE: u128 = 1u128 << 60;

/// Quantize a unit-range amplitude to the fixed-point sample scale.
fn quantize(x: f32) -> i64 {
    (x as f64 * SCALE as f64).round() as i64
}

/// The decibel loudness (LUFS) of a linear-domain measurement: negative
/// infinity when no window qualified or the gated energy is zero.
fn lufs_db(r: Option<u128>) -> f64 {
    match r {
        None => f64::NEG_INFINITY,
        Some(0) => f64::NEG_INFINITY,
        Some(ms) => -0.691 + 10.0 * ((ms as f64) / (MS_ONE as f64)).log10(),
    }
}

#[test]
fn sine_loudness() {
    // One second of 997Hz sine wave at 48kHz sample rate.
    let sine: Vec<i64> = (0..48_000)
        .map(|x| quantize((x as f32 * 997.0 / 48_000.0).sin()))
        .collect();
    let l = lufs_db(lufs::loudness(VecSource::new(sine.clone())));
    assert!((l + 4.1415) < 0.001);

    // Appending something very quiet won't change the loudness.
    let mut signal = sine.clone();
    signal.extend(sine.iter().map(|x| x / 5));
    let l2 = lufs_db(lufs::loudness(VecSource::new(signal)));
    assert!((l2 + 4.1415) < 0.001);
}

#[test]
fn silence_has_no_level() {
    // A whole window of silence: the absolute gate rejects everything, the
    // relative pass then averages all-zero windows, and the result stands
    // for negative infinity.
    let r = lufs::loudness(VecSource::new(vec![0; 19200]));
    assert_eq!(r, Some(0));
    assert_eq!(lufs_db(r), f64::NEG_INFINITY);
}

#[test]
fn empty_signal_has_no_level() {
    let r = lufs::loudness(VecSource::new(Vec::new()));
    assert_eq!(r, None);
    assert_eq!(lufs_db(r), f64::NEG_INFINITY);
}

#[test]
fn short_signal_has_no_level() {
    // Shorter than one window: no complete window exists, whatever the level.
    let r = lufs::loudness(VecSource::new(vec![SCALE; 4800]));
    assert_eq!(r, None);
}

#[test]
fn dc_loudness_exact() {
    // A constant full-scale signal: the high-pass stage leaves only the
    // leading transient's energy. The whole pipeline is integer arithmetic,
    // so the result is exact.
    let r = lufs::loudness(VecSource::new(vec![SCALE; 48_000]));
    assert_eq!(r, Some(3185701880924695));
}

#[test]
fn window_mean_square_full_scale() {
    // A window of constant amplitude 1.0 has mean square exactly 1.0.
    let buf: Vec<i64> = vec![SCALE; 19200];
    assert_eq!(window_mean_square(&buf, 0), MS_ONE);
}

#[test]
fn open_gate_is_plain_average() {
    // Two complete windows, mean squares 0.75 and 1.0; the zero threshold
    // admits both, and the result is their plain energy-domain average.
    let mut buf: Vec<i64> = vec![0; 4800];
    buf.extend(vec![SCALE; 19200]);
    assert_eq!(window_mean_square(&buf, 0), MS_ONE / 4 * 3);
    assert_eq!(window_mean_square(&buf, 4800), MS_ONE);
    assert_eq!(gated_mean_square(&buf, 0, 1), Some(MS_ONE / 8 * 7));
}

#[test]
fn gate_excludes_quiet_window() {
    // A threshold of 0.8 drops the 0.75 window and keeps the 1.0 window.
    let mut buf: Vec<i64> = vec![0; 4800];
    buf.extend(vec![SCALE; 19200]);
    assert_eq!(gated_mean_square(&buf, 922337203685477581, 1), Some(MS_ONE));
}

#[test]
fn gate_above_everything_admits_nothing() {
    let mut buf: Vec<i64> = vec![0; 4800];
    buf.extend(vec![SCALE; 19200]);
    assert_eq!(gated_mean_square(&buf, 1u128 << 70, 1), None);
}

#[test]
fn relative_gate_keeps_the_loud_half() {
    // Ten decibels below the pass-one average still admits every window of a
    // homogeneous signal, so both passes agree on a steady input.
    let buf: Vec<i64> = vec![SCALE; 24000];
    let first = gated_mean_square(&buf, lufs::gating::ABS_GATE_MS, 1).unwrap();
    let second = gated_mean_square(&buf, first, 10).unwrap();
    assert_eq!(first, MS_ONE);
    assert_eq!(second, MS_ONE);
}
