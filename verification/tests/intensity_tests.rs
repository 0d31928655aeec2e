use mandelbrot::intensity::{encode_intensity, DivergenceResult};

#[test]
fn bounded_points_render_black() {
    assert_eq!(encode_intensity(DivergenceResult::Bounded), 0);
}

#[test]
fn fast_escapes_render_near_white() {
    assert_eq!(encode_intensity(DivergenceResult::Escaped(0)), 255);
    assert_eq!(encode_intensity(DivergenceResult::Escaped(1)), 254);
    assert_eq!(encode_intensity(DivergenceResult::Escaped(3)), 252);
    assert_eq!(encode_intensity(DivergenceResult::Escaped(255)), 0);
}
