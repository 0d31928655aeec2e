use mandelbrot::codec::{decode_image, image_bytes};
use mandelbrot::geometry::ImageBounds;

#[test]
fn encoding_then_decoding_recovers_every_pixel() {
    let bounds = ImageBounds::new(3, 2).unwrap();
    let pixels: Vec<u8> = vec![0, 50, 100, 150, 200, 250];
    let bytes = image_bytes(&pixels, &bounds).unwrap();
    // The artifact is a PNG byte string, not the raw buffer.
    assert_ne!(bytes, pixels);
    assert_eq!(&bytes[..4], &[0x89, 0x50, 0x4e, 0x47]);
    let (w, h, decoded) = decode_image(&bytes).unwrap();
    assert_eq!((w, h), (3, 2));
    assert_eq!(decoded, pixels);
}

#[test]
fn a_larger_buffer_round_trips_too() {
    let bounds = ImageBounds::new(64, 48).unwrap();
    let pixels: Vec<u8> = (0..64usize * 48)
        .map(|i| ((i * 13) % 256) as u8)
        .collect();
    let bytes = image_bytes(&pixels, &bounds).unwrap();
    let (w, h, decoded) = decode_image(&bytes).unwrap();
    assert_eq!((w, h), (64, 48));
    assert_eq!(decoded, pixels);
}

#[test]
fn garbage_bytes_do_not_decode() {
    assert!(decode_image(&vec![1, 2, 3, 4]).is_none());
}
