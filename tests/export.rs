use rx_history::export::{build_palette, find_color, frame_delay, gif_animation, index_pixels, split_frames};
use rx_history::{Bgra8, ExportError, Rgba8, ViewExtent};

#[test]
fn palette_sorted_with_transparent_first() {
    let px = vec![
        Bgra8::new(0, 0, 9, 255),
        Bgra8::new(0, 0, 1, 255),
        Bgra8::new(0, 0, 9, 255),
    ];
    let p = build_palette(&px).unwrap();
    assert_eq!(
        p,
        vec![Rgba8::new(0, 0, 0, 0), Rgba8::new(1, 0, 0, 255), Rgba8::new(9, 0, 0, 255)]
    );
    assert_eq!(index_pixels(&p, &px), vec![2, 1, 2]);
}

#[test]
fn unknown_color_maps_to_transparent() {
    let p = vec![Rgba8::new(0, 0, 0, 0), Rgba8::new(5, 5, 5, 5)];
    let px = vec![Bgra8::new(5, 5, 5, 5), Bgra8::new(1, 2, 3, 4)];
    assert_eq!(index_pixels(&p, &px), vec![1, 0]);
    assert_eq!(find_color(&p, Rgba8::new(1, 2, 3, 4)), Err(1));
    assert_eq!(find_color(&p, Rgba8::new(5, 5, 5, 5)), Ok(1));
}

#[test]
fn palette_of_256_colors_round_trips() {
    // 255 opaque grays plus transparent: exactly 256 colors.
    let px: Vec<Bgra8> = (1..=255u8).map(|v| Bgra8::new(v, v, v, 255)).collect();
    let p = build_palette(&px).unwrap();
    assert_eq!(p.len(), 256);
    let idx = index_pixels(&p, &px);
    for (i, k) in idx.iter().enumerate() {
        assert_eq!(p[*k as usize].to_bgra(), px[i]);
    }
}

#[test]
fn too_many_colors() {
    let px: Vec<Bgra8> = (0..=255u8).map(|v| Bgra8::new(v, v, v, 255)).collect();
    assert_eq!(build_palette(&px), None);
    let r = gif_animation(ViewExtent::new(256, 1, 1), &px, 100);
    assert!(matches!(r, Err(ExportError::TooManyColors)));
}

#[test]
fn frames_are_cut_from_strip() {
    // Two frames of 2x2 side by side: rows are [a a b b].
    let img = vec![1, 2, 5, 6, 3, 4, 7, 8];
    let frames = split_frames(&img, 2, 2, 2);
    assert_eq!(frames, vec![vec![1, 2, 3, 4], vec![5, 6, 7, 8]]);
}

#[test]
fn frame_delay_in_hundredths_clamped() {
    assert_eq!(frame_delay(160), 16);
    assert_eq!(frame_delay(9), 0);
    assert_eq!(frame_delay(655_350), 65535);
    assert_eq!(frame_delay(10_000_000), 65535);
}

#[test]
fn animation_from_strip() {
    let red = Bgra8::new(0, 0, 255, 255);
    let t = Bgra8::transparent();
    let px = vec![red, t, t, red];
    let a = gif_animation(ViewExtent::new(1, 2, 2), &px, 250).unwrap();
    assert_eq!((a.width, a.height, a.delay), (1, 2, 25));
    assert_eq!(a.transparent_index(), 0);
    assert_eq!(a.colors, vec![Rgba8::transparent(), Rgba8::new(255, 0, 0, 255)]);
    assert_eq!(a.palette_rgb(), vec![0, 0, 0, 255, 0, 0]);
    assert_eq!(a.frames, vec![vec![1, 0], vec![0, 1]]);
}

#[test]
fn animation_frame_too_large() {
    let r = gif_animation(ViewExtent::new(70_000, 0, 1), &[], 10);
    assert!(matches!(r, Err(ExportError::FrameTooLarge)));
}
