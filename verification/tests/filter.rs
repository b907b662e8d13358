use lufs::biquad::{BiQuad, BiQuadIter, SCALE};
use lufs::source::{SampleSource, VecSource};

/// Drain a sample source, returning everything it produces.
fn drain<S: SampleSource>(mut src: S) -> Vec<i64> {
    let mut out = Vec::new();
    while let Some(v) = src.next_sample() {
        out.push(v);
    }
    out
}

#[test]
fn test_len() {
    let data: Vec<i64> = vec![SCALE, 2 * SCALE, 3 * SCALE, 4 * SCALE, 5 * SCALE, 6 * SCALE];
    let iter = BiQuadIter::new(BiQuad::ebu_prefilter_stage_1(), VecSource::new(data.clone()));
    assert_eq!(drain(iter).len(), data.len());
}

#[test]
fn stage_1_coefficients() {
    let f = BiQuad::ebu_prefilter_stage_1();
    assert_eq!(f.a0, -1815331593);
    assert_eq!(f.a1, 786495243);
    assert_eq!(f.b0, 1648327767);
    assert_eq!(f.b1, -2890186776);
    assert_eq!(f.b2, 1286764483);
}

#[test]
fn stage_2_coefficients() {
    let f = BiQuad::ebu_prefilter_stage_2();
    assert_eq!(f.a0, -2136797184);
    assert_eq!(f.a1, 1063081984);
    assert_eq!(f.b0, 1073741824);
    assert_eq!(f.b1, -2147483648);
    assert_eq!(f.b2, 1073741824);
}

#[test]
fn first_filter_outputs() {
    // With zero history the first output is b0 * x / SCALE; the second mixes
    // in the shifted history exactly as the recurrence prescribes.
    let src = VecSource::new(vec![SCALE, 2 * SCALE]);
    let out = drain(BiQuadIter::new(BiQuad::ebu_prefilter_stage_1(), src));
    assert_eq!(out, vec![1648327767, 3193229415]);
}

#[test]
fn filter_stream_is_empty_on_empty_input() {
    let src = VecSource::new(Vec::new());
    let out = drain(BiQuadIter::new(BiQuad::ebu_prefilter_stage_2(), src));
    assert!(out.is_empty());
}

#[test]
fn prefilter_preserves_length() {
    let data: Vec<i64> = (0i64..100).map(|i| (i - 50) * (SCALE / 64)).collect();
    let out = lufs::prefilter(VecSource::new(data));
    assert_eq!(out.len(), 100);
}
