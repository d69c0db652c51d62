//! Tests of the automatic tone stretch.  Samples are fixed-point
//! thousandths; gamma exponents are in millionths.

use stretchrs::PipeError;
use stretchrs::buffer::PixelBuffer;
use stretchrs::stretch::Stretcher;

fn buffer(w: usize, h: usize, samples: Vec<i64>) -> PixelBuffer {
    PixelBuffer::new(w, h, 3, samples).unwrap()
}

#[test]
fn gamma_is_one_at_mid_gray_median() {
    // Median over all six samples is exactly 0.5.
    let img = buffer(2, 1, vec![0, 500, 1000, 500, 500, 500]);
    let st = Stretcher::from_image(&img).unwrap();
    assert_eq!(st.midtones_value(), 500);
    assert_eq!(st.gamma(), 1_000_000);
}

#[test]
fn gamma_darkens_bright_images() {
    // Sorted samples: 100 200 300 700 800 900; the median is 0.7.
    let img = buffer(2, 1, vec![900, 800, 700, 100, 200, 300]);
    let st = Stretcher::from_image(&img).unwrap();
    assert_eq!(st.midtones_value(), 700);
    assert_eq!(st.gamma(), 600_000);
}

#[test]
fn gamma_brightens_dark_images() {
    let img = buffer(2, 1, vec![0, 0, 0, 400, 400, 400]);
    let st = Stretcher::from_image(&img).unwrap();
    assert_eq!(st.midtones_value(), 400);
    assert_eq!(st.gamma(), 1_240_000);
}

#[test]
fn gamma_capped_at_three_halves() {
    let img = buffer(2, 1, vec![0, 0, 0, 0, 0, 1000]);
    let st = Stretcher::from_image(&img).unwrap();
    assert_eq!(st.midtones_value(), 0);
    assert_eq!(st.gamma(), 1_500_000);
}

#[test]
fn gamma_floored_at_one_hundredth() {
    let img = buffer(2, 1, vec![0, 0, 0, 1000, 1000, 1000]);
    let st = Stretcher::from_image(&img).unwrap();
    assert_eq!(st.midtones_value(), 1000);
    assert_eq!(st.gamma(), 10_000);
}

#[test]
fn gamma_always_within_range() {
    let cases = vec![
        vec![0i64, 0, 0, 0, 0, 1000],
        vec![0, 100, 200, 300, 400, 1000],
        vec![1000, 900, 800, 100, 50, 0],
        vec![-500, 0, 2000, 100, 700, 300],
    ];
    for samples in cases {
        let img = buffer(2, 1, samples);
        let st = Stretcher::from_image(&img).unwrap();
        assert!(st.gamma() >= 10_000 && st.gamma() <= 1_500_000);
        assert_eq!(st.gamma() == 1_000_000, st.midtones_value() == 500);
    }
}

#[test]
fn apply_clamps_every_sample() {
    let img = buffer(2, 1, vec![0, 2000, -500, 1000, 300, 700]);
    let st = Stretcher::from_image(&img).unwrap();
    let mut work = buffer(2, 1, vec![0, 2000, -500, 1000, 300, 700]);
    st.apply(&mut work);
    for i in 0..work.len() {
        let v = work.get(i);
        assert!(v >= 0 && v <= 1000);
    }
}

#[test]
fn apply_normalizes_exactly_on_mid_gray_median() {
    // Median 0.5 skips the power curve, so the remap is the exact
    // normalization: luminances are 429 and 500.
    let samples = vec![0i64, 500, 1000, 500, 500, 500];
    let img = buffer(2, 1, samples.clone());
    let st = Stretcher::from_image(&img).unwrap();
    assert_eq!(st.input_shadow_value(), 429);
    assert_eq!(st.input_highlight_value(), 500);
    let mut work = buffer(2, 1, samples);
    st.apply(&mut work);
    let expected = vec![0i64, 1000, 1000, 1000, 1000, 1000];
    for i in 0..work.len() {
        assert_eq!(work.get(i), expected[i]);
    }
}

#[test]
fn constant_image_is_degenerate() {
    let img = buffer(2, 1, vec![500, 500, 500, 500, 500, 500]);
    let r = Stretcher::from_image(&img);
    assert!(matches!(r, Err(PipeError::NumericDegenerate)));
}

#[test]
fn non_rgb_buffer_is_refused() {
    let img = PixelBuffer::new(2, 2, 1, vec![0, 1, 2, 3]).unwrap();
    let r = Stretcher::from_image(&img);
    assert!(matches!(r, Err(PipeError::UnsupportedColorDepth)));
}

#[test]
fn buffer_shape_is_checked() {
    assert!(matches!(
        PixelBuffer::new(0, 4, 3, vec![]),
        Err(PipeError::DimensionLimitExceeded)
    ));
    assert!(matches!(
        PixelBuffer::new(2, 2, 3, vec![0; 11]),
        Err(PipeError::DecodeFailure)
    ));
    assert!(matches!(
        PixelBuffer::new(1, 1, 3, vec![0, 2_000_000_000, 0]),
        Err(PipeError::DecodeFailure)
    ));
}

#[test]
fn apply_is_flat_beyond_the_input_range() {
    // Luminances are 38 and 543; the midtone 0.3 selects the power
    // path.  Samples at or below the shadow map to exactly 0; samples
    // at or beyond the highlight map to exactly 1.
    let samples = vec![-500i64, 0, 2000, 100, 700, 300];
    let img = buffer(2, 1, samples.clone());
    let st = Stretcher::from_image(&img).unwrap();
    assert_ne!(st.midtones_value(), 500);
    let shadow = st.input_shadow_value();
    let highlight = st.input_highlight_value();
    let mut work = buffer(2, 1, samples.clone());
    st.apply(&mut work);
    for i in 0..work.len() {
        if samples[i] <= shadow {
            assert_eq!(work.get(i), 0);
        }
        if samples[i] >= highlight {
            assert_eq!(work.get(i), 1000);
        }
    }
}

#[test]
fn apply_preserves_sample_order() {
    let samples = vec![900i64, 800, 700, 100, 200, 300];
    let img = buffer(2, 1, samples.clone());
    let st = Stretcher::from_image(&img).unwrap();
    assert_ne!(st.midtones_value(), 500);
    let mut work = buffer(2, 1, samples.clone());
    st.apply(&mut work);
    let mut pairs: Vec<(i64, i64)> = (0..work.len()).map(|i| (samples[i], work.get(i))).collect();
    pairs.sort();
    for w in pairs.windows(2) {
        assert!(w[0].1 <= w[1].1);
    }
}

#[test]
fn analysis_is_a_function_of_the_image() {
    let samples = vec![900i64, 800, 700, 100, 200, 300];
    let a = Stretcher::from_image(&buffer(2, 1, samples.clone())).unwrap();
    let b = Stretcher::from_image(&buffer(2, 1, samples)).unwrap();
    assert_eq!(a.gamma(), b.gamma());
    assert_eq!(a.midtones_value(), b.midtones_value());
    assert_eq!(a.input_shadow_value(), b.input_shadow_value());
    assert_eq!(a.input_highlight_value(), b.input_highlight_value());
}
