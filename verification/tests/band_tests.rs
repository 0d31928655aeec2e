use mandelbrot::bands::{band_ranges, Band};

fn check_partition(height: usize, workers: usize) {
    let bands = band_ranges(height, workers);
    assert!(bands.len() <= workers);
    assert_eq!(bands.is_empty(), height == 0);
    // Consecutive, nonempty bands that tile 0..height exactly.
    let mut next_top: usize = 0;
    for b in &bands {
        assert_eq!(b.top, next_top);
        assert!(b.height > 0);
        next_top = b.top + b.height;
    }
    assert_eq!(next_top, height);
    // Every row is covered by exactly one band.
    for row in 0..height {
        let owners = bands
            .iter()
            .filter(|b| b.top <= row && row < b.top + b.height)
            .count();
        assert_eq!(owners, 1);
    }
}

#[test]
fn band_ranges_partitions_rows() {
    check_partition(10, 3);
    check_partition(8, 4);
    check_partition(5, 8);
    check_partition(0, 4);
    check_partition(1, 1);
    check_partition(997, 8);
}

#[test]
fn band_ranges_rounds_rows_per_band_up() {
    let bands = band_ranges(10, 3);
    let expected = vec![
        Band { top: 0, height: 4 },
        Band { top: 4, height: 4 },
        Band { top: 8, height: 2 },
    ];
    assert_eq!(bands, expected);
}

/// A stand-in for the per-pixel computation: a pure function of the
/// pixel's coordinates only.
fn synth_pixel(row: usize, col: usize) -> u8 {
    ((row * 31 + col * 7) % 251) as u8
}

fn render_synthetic(width: usize, height: usize, workers: usize) -> Vec<u8> {
    let mut buf = vec![0u8; width * height];
    for band in band_ranges(height, workers) {
        for row in band.top..band.top + band.height {
            for col in 0..width {
                buf[row * width + col] = synth_pixel(row, col);
            }
        }
    }
    buf
}

#[test]
fn rendering_is_deterministic_across_worker_counts() {
    let one = render_synthetic(40, 30, 1);
    let eight = render_synthetic(40, 30, 8);
    let seven = render_synthetic(40, 30, 7);
    assert_eq!(one, eight);
    assert_eq!(one, seven);
}
