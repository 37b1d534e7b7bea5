use std::io::Cursor;

use drawstack::entry::ImageKind;
use drawstack::thumbnail::{render_thumbnail, thumbnail_file_name};

fn picture(width: u32, height: u32) -> image::DynamicImage {
    let mut buffer = image::RgbImage::new(width, height);
    for (x, y, pixel) in buffer.enumerate_pixels_mut() {
        *pixel = image::Rgb([(x % 256) as u8, (y % 256) as u8, ((x + y) % 256) as u8]);
    }
    image::DynamicImage::ImageRgb8(buffer)
}

fn encoded(picture: &image::DynamicImage, format: image::ImageFormat) -> Vec<u8> {
    let mut out = Cursor::new(Vec::new());
    picture.write_to(&mut out, format).unwrap();
    out.into_inner()
}

fn size_of_jpeg(bytes: &[u8]) -> (u32, u32) {
    let decoded = image::load_from_memory_with_format(bytes, image::ImageFormat::Jpeg).unwrap();
    (decoded.width(), decoded.height())
}

#[test]
fn thumbnail_of_a_wide_png_is_a_jpeg_that_fits() {
    let source = encoded(&picture(200, 100), image::ImageFormat::Png);
    let thumbnail = render_thumbnail(&source, ImageKind::Png).unwrap();
    assert_ne!(thumbnail, source);
    assert_eq!(&thumbnail[..2], &[0xff, 0xd8]);
    assert_eq!(size_of_jpeg(&thumbnail), (100, 50));
}

#[test]
fn thumbnail_of_a_tall_image_keeps_its_shape() {
    let source = encoded(&picture(300, 900), image::ImageFormat::Bmp);
    let thumbnail = render_thumbnail(&source, ImageKind::Bmp).unwrap();
    assert_eq!(size_of_jpeg(&thumbnail), (33, 100));
}

#[test]
fn thumbnail_of_a_small_image_is_scaled_up_to_the_square() {
    let source = encoded(&picture(10, 20), image::ImageFormat::Png);
    let thumbnail = render_thumbnail(&source, ImageKind::Png).unwrap();
    assert_eq!(size_of_jpeg(&thumbnail), (50, 100));
}

#[test]
fn thumbnail_of_a_square_of_the_very_size() {
    let source = encoded(&picture(100, 100), image::ImageFormat::Png);
    let thumbnail = render_thumbnail(&source, ImageKind::Png).unwrap();
    assert_eq!(size_of_jpeg(&thumbnail), (100, 100));
}

#[test]
fn thumbnail_is_what_the_crate_makes_by_hand() {
    let original = picture(64, 48);
    let source = encoded(&original, image::ImageFormat::Png);
    let small = original.resize(100, 100, image::imageops::FilterType::Nearest);
    let expected = encoded(&small, image::ImageFormat::Jpeg);
    assert_eq!(render_thumbnail(&source, ImageKind::Png), Some(expected));
}

#[test]
fn thumbnails_of_every_format() {
    let original = picture(40, 30);
    let cases = [
        (image::ImageFormat::Jpeg, ImageKind::Jpeg),
        (image::ImageFormat::Png, ImageKind::Png),
        (image::ImageFormat::WebP, ImageKind::WebP),
        (image::ImageFormat::Gif, ImageKind::Gif),
        (image::ImageFormat::Bmp, ImageKind::Bmp),
    ];
    for (format, kind) in cases {
        let source = encoded(&original, format);
        let thumbnail = render_thumbnail(&source, kind).unwrap();
        assert_eq!(size_of_jpeg(&thumbnail), (100, 75), "for {:?}", kind);
    }
}

#[test]
fn thumbnail_of_a_picture_with_transparency() {
    let buffer = image::RgbaImage::from_pixel(8, 8, image::Rgba([10, 20, 30, 128]));
    let source = encoded(&image::DynamicImage::ImageRgba8(buffer), image::ImageFormat::Png);
    let thumbnail = render_thumbnail(&source, ImageKind::Png).unwrap();
    assert_eq!(size_of_jpeg(&thumbnail), (100, 100));
}

#[test]
fn a_truncated_image_is_skipped() {
    let source = encoded(&picture(200, 100), image::ImageFormat::Png);
    assert_eq!(render_thumbnail(&source[..source.len() / 2], ImageKind::Png), None);
    assert_eq!(render_thumbnail(&source[..8], ImageKind::Png), None);
}

#[test]
fn bytes_that_are_no_image_are_skipped() {
    assert_eq!(render_thumbnail(&[], ImageKind::Jpeg), None);
    assert_eq!(render_thumbnail(b"hello, world", ImageKind::Png), None);
    assert_eq!(render_thumbnail(&[0u8; 64], ImageKind::Gif), None);
}

#[test]
fn an_image_is_read_in_the_format_of_its_extension() {
    let source = encoded(&picture(20, 20), image::ImageFormat::Jpeg);
    assert!(render_thumbnail(&source, ImageKind::Jpeg).is_some());
    assert_eq!(render_thumbnail(&source, ImageKind::Png), None);
    assert_eq!(render_thumbnail(&source, ImageKind::Gif), None);
}

#[test]
fn thumbnail_file_is_named_after_the_identifier() {
    assert_eq!(thumbnail_file_name("abc"), "abc.jpg");
    assert_eq!(
        thumbnail_file_name("0b5a6d9e-3c1f-4d2a-9a7b-1c2d3e4f5a6b"),
        "0b5a6d9e-3c1f-4d2a-9a7b-1c2d3e4f5a6b.jpg"
    );
    assert_eq!(thumbnail_file_name(""), ".jpg");
}
