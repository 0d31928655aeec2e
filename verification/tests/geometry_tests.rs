use mandelbrot::geometry::{new_buffer, pixel_index, GeometryError, ImageBounds};

#[test]
fn zero_sides_are_rejected() {
    assert_eq!(ImageBounds::new(0, 5), Err(GeometryError::ZeroWidth));
    assert_eq!(ImageBounds::new(5, 0), Err(GeometryError::ZeroHeight));
    assert_eq!(ImageBounds::new(0, 0), Err(GeometryError::ZeroWidth));
}

#[test]
fn oversized_pixel_counts_are_rejected() {
    assert_eq!(
        ImageBounds::new(usize::MAX, 2),
        Err(GeometryError::PixelCountOverflow)
    );
}

#[test]
fn valid_bounds_are_accepted() {
    let b = ImageBounds::new(100, 200).unwrap();
    assert_eq!(b.width, 100);
    assert_eq!(b.height, 200);
    assert_eq!(b.pixel_count(), 20000);
}

#[test]
fn buffers_start_zeroed() {
    let b = ImageBounds::new(7, 3).unwrap();
    let buf = new_buffer(&b);
    assert_eq!(buf.len(), 21);
    assert!(buf.iter().all(|&px| px == 0));
}

#[test]
fn pixel_index_is_row_major() {
    let b = ImageBounds::new(100, 200).unwrap();
    assert_eq!(pixel_index(&b, 0, 0), 0);
    assert_eq!(pixel_index(&b, 25, 175), 17525);
    assert_eq!(pixel_index(&b, 99, 199), 19999);
}
