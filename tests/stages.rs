use canny_pipeline::{
    eight_conn_edge_tracker_hysteris, BlurError, DoubleThresholder, Frame, FrameError,
    GaussianBlur, GradNonMaxSuppression, MeasuredPixel, PixelGradient, SobelOperator, Strength,
    ThresholdError,
};

fn gray(width: i32, height: i32, data: Vec<u8>) -> Frame {
    Frame { data, width, height, channels: 1 }
}

fn raw_gaussian(sigma: f64) -> Vec<u32> {
    let radius = (3.0 * sigma).ceil() as i64;
    (0..(2 * radius + 1))
        .map(|i| {
            let x = (i - radius) as f64;
            ((-x * x / (2.0 * sigma * sigma)).exp() * 16_777_216.0).round() as u32
        })
        .collect()
}

#[test]
fn get_pixel_reads_gray_and_rgb() {
    let g = gray(2, 1, vec![7, 9]);
    assert_eq!(g.get_pixel(1, 0), Some((9, 9, 9)));
    assert_eq!(g.get_pixel(2, 0), None);
    assert_eq!(g.get_pixel(-1, 0), None);
    let rgb = Frame { data: vec![1, 2, 3, 4, 5, 6], width: 2, height: 1, channels: 3 };
    assert_eq!(rgb.get_pixel(1, 0), Some((4, 5, 6)));
    let odd = Frame { data: vec![1, 2], width: 1, height: 1, channels: 2 };
    assert_eq!(odd.get_pixel(0, 0), None);
}

#[test]
fn grayscale_uses_luma_weights() {
    let mut f = Frame { data: vec![10, 20, 30, 255, 255, 255], width: 2, height: 1, channels: 3 };
    f.to_grayscale();
    assert_eq!(f.channels, 1);
    assert_eq!(f.data, vec![18, 255]);
}

#[test]
fn grayscale_twice_equals_once() {
    let mut once = Frame { data: vec![200, 10, 40, 3, 99, 250], width: 1, height: 2, channels: 3 };
    once.to_grayscale();
    let mut twice = once.duplicate();
    twice.to_grayscale();
    assert_eq!(once.data, twice.data);
    assert_eq!(once.channels, twice.channels);
}

#[test]
fn to_rgb_replicates_gray() {
    let f = gray(2, 1, vec![5, 6]).to_rgb();
    assert_eq!(f.channels, 3);
    assert_eq!(f.data, vec![5, 5, 5, 6, 6, 6]);
}

#[test]
fn rgb_bytes_checks_the_buffer() {
    assert_eq!(gray(2, 1, vec![5, 6]).rgb_bytes().unwrap(), vec![5, 5, 5, 6, 6, 6]);
    assert_eq!(gray(2, 2, vec![5, 6]).rgb_bytes(), Err(FrameError::BufferMismatch));
    let two = Frame { data: vec![1, 2], width: 1, height: 1, channels: 2 };
    assert_eq!(two.rgb_bytes(), Err(FrameError::UnsupportedChannels));
    assert_eq!(gray(-1, 1, vec![]).rgb_bytes(), Err(FrameError::NegativeDimensions));
}

#[test]
fn threshold_classifies_by_min_and_max() {
    let t = DoubleThresholder::new(10, 40).unwrap();
    let grid = t.threshold(gray(5, 1, vec![5, 10, 25, 40, 255]));
    let weights: Vec<Strength> = grid[0].iter().map(|p| p.weight).collect();
    assert_eq!(
        weights,
        vec![Strength::Suppressed, Strength::Suppressed, Strength::Weak, Strength::Strong, Strength::Strong]
    );
    assert_eq!(grid[0][2].value, 25);
}

#[test]
fn threshold_rejects_unordered_bounds() {
    assert!(matches!(DoubleThresholder::new(40, 40), Err(ThresholdError::InvalidOrder)));
    assert!(matches!(DoubleThresholder::new(50, 40), Err(ThresholdError::InvalidOrder)));
}

fn cell(weight: Strength, value: i32) -> MeasuredPixel {
    MeasuredPixel { weight, value }
}

#[test]
fn isolated_weak_pixel_is_dropped() {
    let s = || cell(Strength::Suppressed, 0);
    let grid = vec![vec![s(), s(), s()], vec![s(), cell(Strength::Weak, 25), s()], vec![s(), s(), s()]];
    let out = eight_conn_edge_tracker_hysteris(grid);
    assert_eq!(out.data, vec![0; 9]);
    assert_eq!((out.width, out.height, out.channels), (3, 3, 1));
}

#[test]
fn weak_pixel_beside_strong_is_kept() {
    let s = || cell(Strength::Suppressed, 3);
    let grid = vec![
        vec![cell(Strength::Strong, 50), s(), s()],
        vec![s(), cell(Strength::Weak, 25), s()],
        vec![s(), s(), cell(Strength::Weak, 30)],
    ];
    let out = eight_conn_edge_tracker_hysteris(grid);
    assert_eq!(out.data, vec![50, 0, 0, 0, 25, 0, 0, 0, 30]);
}

#[test]
fn weak_chain_without_strong_is_dropped() {
    let grid = vec![vec![cell(Strength::Weak, 20), cell(Strength::Weak, 21), cell(Strength::Suppressed, 1)]];
    let out = eight_conn_edge_tracker_hysteris(grid);
    assert_eq!(out.data, vec![0, 0, 0]);
}

#[test]
fn sobel_responds_to_a_vertical_step() {
    let f = gray(3, 3, vec![0, 0, 90, 0, 0, 90, 0, 0, 90]);
    let g = SobelOperator::calculate_gradient(&f).unwrap();
    assert_eq!(g[1][1], PixelGradient::new(360, 0));
    assert_eq!(g[0][0], PixelGradient::new(0, 0));
    assert_eq!(g[1][1].magnitude_squared(), 129_600);
}

#[test]
fn uniform_frame_has_no_gradient() {
    let f = gray(4, 4, vec![77; 16]);
    let g = SobelOperator::calculate_gradient(&f).unwrap();
    for row in &g {
        for p in row {
            assert_eq!(*p, PixelGradient::new(0, 0));
        }
    }
}

#[test]
fn sobel_needs_grayscale() {
    let f = Frame { data: vec![0; 27], width: 3, height: 3, channels: 3 };
    assert_eq!(SobelOperator::calculate_gradient(&f).err(), Some(FrameError::NotGrayscale));
}

#[test]
fn suppression_keeps_a_local_maximum() {
    let z = PixelGradient::new(0, 0);
    let grid = vec![vec![z, z, z], vec![z, PixelGradient::new(360, 0), z], vec![z, z, z]];
    let out = GradNonMaxSuppression::suppress(grid);
    assert_eq!(out.data, vec![0, 0, 0, 0, 255, 0, 0, 0, 0]);
}

#[test]
fn suppression_zeroes_a_weaker_pixel() {
    let z = PixelGradient::new(0, 0);
    let grid = vec![
        vec![z, z, PixelGradient::new(30, 0)],
        vec![z, PixelGradient::new(3, 4), z],
        vec![z, z, z],
    ];
    let out = GradNonMaxSuppression::suppress(grid);
    assert_eq!(out.data[4], 0);
    let grid = vec![vec![z, z, z], vec![z, PixelGradient::new(3, 4), z], vec![z, z, z]];
    let out = GradNonMaxSuppression::suppress(grid);
    assert_eq!(out.data[4], 5);
}

#[test]
fn blur_rejects_bad_kernels() {
    assert!(matches!(GaussianBlur::new("out", vec![1, 2]), Err(BlurError::InvalidSigma(_))));
    assert!(matches!(GaussianBlur::new("out", vec![0, 0, 0]), Err(BlurError::ProcessingError(_))));
}

#[test]
fn blur_drops_taps_outside_the_frame() {
    let b = GaussianBlur::new("out", vec![1, 2, 1]).unwrap();
    let out = b.process(&gray(3, 1, vec![0, 100, 200])).unwrap();
    assert_eq!(out.data, vec![12, 50, 62]);
}

#[test]
fn blur_reports_invalid_frames() {
    let b = GaussianBlur::new("out", vec![1, 2, 1]).unwrap();
    assert!(matches!(b.process(&gray(0, 3, vec![])), Err(BlurError::InvalidDimensions(_))));
    assert!(matches!(b.process(&gray(2, 2, vec![])), Err(BlurError::EmptyInput(_))));
    assert!(matches!(b.process(&gray(2, 2, vec![1, 2, 3])), Err(BlurError::BufferMismatch(_))));
    let two = Frame { data: vec![1; 8], width: 2, height: 2, channels: 2 };
    assert!(matches!(b.process(&two), Err(BlurError::UnsupportedChannels(_))));
}

#[test]
fn blur_of_uniform_frame_never_overshoots() {
    let b = GaussianBlur::new("out", raw_gaussian(1.0)).unwrap();
    let out = b.process(&gray(9, 9, vec![120; 81])).unwrap();
    for y in 0..9 {
        for x in 0..9 {
            let v = out.data[y * 9 + x];
            assert!(v <= 120);
            if (3..6).contains(&x) && (3..6).contains(&y) {
                assert_eq!(v, 120);
            }
        }
    }
    assert!(out.data[0] < 120);
}

#[test]
fn to_rgb_uses_the_signed_pixel_count() {
    let f = Frame { data: vec![5], width: -1, height: -1, channels: 1 }.to_rgb();
    assert_eq!(f.data, vec![5, 5, 5]);
}

#[test]
fn grayscale_keeps_the_signed_pixel_count() {
    let mut f = Frame { data: vec![1, 2, 3, 4, 5, 6], width: -1, height: -2, channels: 3 };
    f.to_grayscale();
    assert_eq!(f.channels, 1);
    assert_eq!(f.data, vec![0, 0]);
}

#[test]
fn blur_errors_carry_their_message() {
    let b = GaussianBlur::new("out", vec![1, 2, 1]).unwrap();
    match b.process(&gray(2, 2, vec![])) {
        Err(BlurError::EmptyInput(m)) => assert_eq!(m, "frame data is empty"),
        _ => panic!("expected an empty-input error"),
    }
}
