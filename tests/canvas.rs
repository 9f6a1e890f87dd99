use riven::canvas::{Canvas, pack_rgb};
use riven::texture::ImageTexture;

#[test]
fn create_canvas_with_valid_dimensions() {
    let width = 100;
    let height = 100;
    let canvas = Canvas::new(width);
    assert_eq!(canvas.width, width);
    assert_eq!(canvas.height, height);
}

#[test]
fn new_canvas_is_all_zero() {
    let canvas = Canvas::with_height(8, 3);
    assert_eq!(canvas.raw_pixels().len(), 8 * 3 * 4);
    assert!(canvas.raw_pixels().iter().all(|b| *b == 0));
}

#[test]
fn write_pixel_within_bounds_sets_only_that_pixel() {
    let mut canvas = Canvas::new(100);
    canvas.write_pixel(50, 50, [255, 0, 0, 255]);
    assert_eq!(canvas.get_pixel(50, 50), [255, 0, 0, 255]);
    assert_eq!(canvas.get_pixel(49, 50), [0, 0, 0, 0]);
    assert_eq!(canvas.get_pixel(50, 49), [0, 0, 0, 0]);
    let raw = canvas.raw_pixels();
    let base = (50 * 100 + 50) * 4;
    assert_eq!(&raw[base..base + 4], &[255, 0, 0, 255]);
}

#[test]
fn write_pixel_last_corner() {
    let mut canvas = Canvas::with_height(4, 2);
    canvas.write_pixel(3, 1, [1, 2, 3, 4]);
    assert_eq!(canvas.get_pixel(3, 1), [1, 2, 3, 4]);
    assert_eq!(&canvas.raw_pixels()[28..32], &[1, 2, 3, 4]);
}

#[test]
fn pack_rgb_places_channels() {
    assert_eq!(pack_rgb(0x12, 0x34, 0x56), 0x0012_3456);
    assert_eq!(pack_rgb(255, 255, 255), 0x00ff_ffff);
    assert_eq!(pack_rgb(0, 0, 0), 0);
}

#[test]
fn image_texture_rejects_wrong_sizes() {
    assert!(ImageTexture::from_rgb(0, 1, vec![]).is_none());
    assert!(ImageTexture::from_rgb(1, 0, vec![]).is_none());
    assert!(ImageTexture::from_rgb(2, 1, vec![0; 5]).is_none());
    assert!(ImageTexture::from_rgb(2, 1, vec![0; 6]).is_some());
    assert!(ImageTexture::from_rgb(2, 1, vec![0; 7]).is_some());
}

#[test]
fn image_texture_reads_texels() {
    let bytes: Vec<u8> = (0u8..12).collect();
    let tex = ImageTexture::from_rgb(2, 2, bytes).unwrap();
    assert_eq!(tex.texel(0, 0), [0, 1, 2]);
    assert_eq!(tex.texel(1, 0), [3, 4, 5]);
    assert_eq!(tex.texel(0, 1), [6, 7, 8]);
    assert_eq!(tex.texel(1, 1), [9, 10, 11]);
}
