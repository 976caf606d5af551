//! The ANSI half-block thumbnail: decoding, resizing and the render loop.

use et_services::tty::{decode_for_preview, render_ansi, sample_height, thumbnail};

fn small_png() -> Vec<u8> {
    let img = image::RgbaImage::from_fn(3, 2, |_x, _y| image::Rgba([200, 100, 50, 255]));
    let mut png = Vec::new();
    image::DynamicImage::ImageRgba8(img)
        .write_to(&mut std::io::Cursor::new(&mut png), image::ImageFormat::Png)
        .unwrap();
    png
}

#[test]
fn renders_a_small_image_to_ansi() {
    let decoded = decode_for_preview(&small_png()).ok().unwrap().unwrap();
    assert_eq!((decoded.width(), decoded.height()), (3, 2));
    // 2/3 aspect at 48 columns is 16 rows.
    let text = thumbnail(&decoded, 16);
    assert_eq!(text.lines().count(), 16);
    let cell = "\x1b[38;2;200;100;50m\x1b[48;2;200;100;50m\u{2580}";
    let line = format!("{}\x1b[0m\n", cell.repeat(48));
    assert_eq!(text, line.repeat(16));
}

#[test]
fn rejects_undecodable_bytes() {
    assert!(decode_for_preview(b"not an image").is_err());
}

#[test]
fn each_cell_pairs_an_upper_and_a_lower_pixel() {
    let mut px = vec![0u8; 48 * 2 * 4];
    px[0] = 1;
    px[1] = 22;
    px[2] = 255;
    px[48 * 4] = 9;
    let text = render_ansi(&px, 1);
    assert!(text.starts_with("\x1b[38;2;1;22;255m\x1b[48;2;9;0;0m\u{2580}\x1b[38;2;0;0;0m"));
    assert_eq!(text.matches('\u{2580}').count(), 48);
}

#[test]
fn the_sample_height_is_two_pixel_rows_per_line() {
    assert_eq!(sample_height(0), 2);
    assert_eq!(sample_height(1), 2);
    assert_eq!(sample_height(16), 32);
    assert_eq!(sample_height(u32::MAX), u32::MAX);
}
