use gitgui::render::frame::Framebuffer;
use gitgui::render::raster::{blend, mul_color, Texture};

#[test]
fn dirty_tracking() {
    let mut fb = Framebuffer::new(4, 2);
    assert!(fb.is_dirty(), "never sent is dirty");
    fb.clear([1, 2, 3, 255]);
    fb.mark_sent();
    assert!(!fb.is_dirty());
    fb.clear([1, 2, 3, 255]);
    assert!(!fb.is_dirty(), "identical repaint is not dirty");
    fb.pixels_mut()[0] = 9;
    assert!(fb.is_dirty());
    assert_eq!(fb.pixel(3, 1), [1, 2, 3, 255]);
}

#[test]
fn png_roundtrip() {
    let mut fb = Framebuffer::new(3, 2);
    fb.clear([10, 20, 30, 255]);
    fb.pixels_mut()[4..8].copy_from_slice(&[255, 0, 0, 255]);
    let bytes = fb.encode_png().unwrap();
    let dec = png::Decoder::new(std::io::Cursor::new(bytes));
    let mut reader = dec.read_info().unwrap();
    let mut buf = vec![0; reader.output_buffer_size().unwrap()];
    let info = reader.next_frame(&mut buf).unwrap();
    assert_eq!((info.width, info.height), (3, 2));
    assert_eq!(&buf[..8], &[10, 20, 30, 255, 255, 0, 0, 255]);
}

#[test]
fn empty_frame_has_no_png() {
    assert!(Framebuffer::new(0, 3).encode_png().is_none());
}

#[test]
fn resize_keeps_or_resets() {
    let mut fb = Framebuffer::new(2, 2);
    fb.clear([5, 5, 5, 5]);
    fb.mark_sent();
    fb.resize(2, 2);
    assert!(!fb.is_dirty());
    fb.resize(3, 1);
    assert_eq!((fb.width(), fb.height()), (3, 1));
    assert_eq!(fb.pixels(), &[0u8; 12][..]);
    assert!(fb.is_dirty());
}

#[test]
fn transparent_flat_triangle_is_skipped_and_blend_math() {
    let mut dst = [100u8, 100, 100, 255];
    blend(&mut dst, [0, 0, 0, 0]);
    assert_eq!(dst, [100, 100, 100, 255]);
    blend(&mut dst, [128, 0, 0, 128]);
    assert_eq!(dst, [178, 50, 50, 255]);
    blend(&mut dst, [1, 2, 3, 255]);
    assert_eq!(dst, [1, 2, 3, 255]);
}

#[test]
fn tint_math() {
    assert_eq!(mul_color([10, 20, 30, 40], [255, 255, 255, 255]), [10, 20, 30, 40]);
    assert_eq!(mul_color([255, 255, 255, 255], [128, 0, 64, 255]), [128, 0, 64, 255]);
    assert_eq!(mul_color([100, 200, 50, 255], [128, 128, 128, 128]), [50, 100, 25, 128]);
}

#[test]
fn white_texture_texel() {
    let t = Texture::white();
    assert_eq!((t.w, t.h), (1, 1));
    assert_eq!(t.texel(0, 0), [255; 4]);
}

#[test]
fn texture_patches_are_clipped_to_the_texture() {
    let px = |v: u8| [v, v, v, 255u8];
    let mut t = Texture { w: 3, h: 2, rgba: vec![px(0); 6] };
    let src: Vec<[u8; 4]> = (1..=6).map(px).collect();
    t.patch(1, 0, 3, 2, &src);
    assert_eq!(t.rgba, vec![px(0), px(1), px(2), px(0), px(4), px(5)]);
    let mut u = Texture { w: 2, h: 2, rgba: vec![px(9); 4] };
    u.patch(0, 1, 2, 2, &[px(1), px(2), px(3), px(4)]);
    assert_eq!(u.rgba, vec![px(9), px(9), px(1), px(2)]);
    u.patch(2, 0, 1, 1, &[px(7)]);
    assert_eq!(u.rgba, vec![px(9), px(9), px(1), px(2)]);
}
