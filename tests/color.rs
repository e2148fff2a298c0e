use rx_history::color::{from_bgra_bytes, from_rgba_bytes, to_bgra_bytes, to_rgba_bytes};
use rx_history::{Bgra8, PixelBufferError, Rgba8};

#[test]
fn channel_order_conversions() {
    let c = Bgra8::new(1, 2, 3, 4);
    assert_eq!(c.to_rgba(), Rgba8::new(3, 2, 1, 4));
    assert_eq!(c.to_rgba().to_bgra(), c);
    assert_eq!(Rgba8::transparent(), Rgba8::new(0, 0, 0, 0));
    assert_eq!(Bgra8::transparent(), Bgra8::new(0, 0, 0, 0));
}

#[test]
fn framebuffer_bytes_blue_first() {
    let px = vec![Bgra8::new(1, 2, 3, 4), Bgra8::new(5, 6, 7, 8)];
    let bytes = to_bgra_bytes(&px);
    assert_eq!(bytes, vec![1, 2, 3, 4, 5, 6, 7, 8]);
    assert_eq!(from_bgra_bytes(&bytes), px);
}

#[test]
fn image_bytes_red_first() {
    let px = vec![Bgra8::new(1, 2, 3, 4)];
    assert_eq!(to_rgba_bytes(&px), vec![3, 2, 1, 4]);
    assert_eq!(from_rgba_bytes(&[3, 2, 1, 4]), Ok(px));
}

#[test]
fn image_bytes_partial_pixel_rejected() {
    assert_eq!(from_rgba_bytes(&[1, 2, 3, 4, 5]), Err(PixelBufferError::InvalidSize));
    assert_eq!(from_rgba_bytes(&[]), Ok(vec![]));
}
