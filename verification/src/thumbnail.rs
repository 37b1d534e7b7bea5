//! Thumbnails: a small JPEG rendition of an encoded image.
//!
//! Decoding, scaling and encoding are the work of the `image` crate. What this
//! module states of them is believed, not proved.

use vstd::prelude::*;
use crate::entry::ImageKind;

verus! {

#[verifier::external_type_specification]
#[verifier::external_body]
pub struct ExDynamicImage(image::DynamicImage);

/// The longest side that a thumbnail may have, in pixels.
pub const THUMBNAIL_SIDE: u32 = 100;

/// The largest bound that `scale_nearest` takes for a side.
pub const SCALE_LIMIT: u32 = 1024;

/// The picture that the `image` crate decodes from `bytes` read as `kind`, or
/// `None` where it reports an error.
pub uninterp spec fn decoded(bytes: Seq<u8>, kind: ImageKind) -> Option<image::DynamicImage>;

/// The picture that `DynamicImage::resize` makes of `picture` for the bounds
/// `width` and `height` with the nearest-neighbour filter.
pub uninterp spec fn scaled(
    picture: image::DynamicImage,
    width: u32,
    height: u32,
) -> image::DynamicImage;

/// The bytes that `DynamicImage::write_to` writes for `picture` in the format
/// `kind`, or `None` where it reports an error.
pub uninterp spec fn encoded(picture: image::DynamicImage, kind: ImageKind) -> Option<Seq<u8>>;

/// The width of a picture in pixels, as `DynamicImage::width` gives it.
pub uninterp spec fn width_of(picture: image::DynamicImage) -> nat;

/// The height of a picture in pixels, as `DynamicImage::height` gives it.
pub uninterp spec fn height_of(picture: image::DynamicImage) -> nat;

/// Calls `image::load_from_memory_with_format`.
///
/// The call decodes the whole of `bytes` in the one format it is told, with
/// the crate's default limits, and reads nothing else. Believed: its result is
/// a function of the bytes and the format, from here on called `decoded`, and
/// an error of any kind comes back as `None`.
#[verifier::external_body]
fn decode(bytes: &[u8], kind: ImageKind) -> (picture: Option<image::DynamicImage>)
    ensures
        picture == decoded(bytes@, kind),
{
    let format = match kind {
        ImageKind::Jpeg => image::ImageFormat::Jpeg,
        ImageKind::Png => image::ImageFormat::Png,
        ImageKind::WebP => image::ImageFormat::WebP,
        ImageKind::Gif => image::ImageFormat::Gif,
        ImageKind::Bmp => image::ImageFormat::Bmp,
    };
    image::load_from_memory_with_format(bytes, format).ok()
}

/// Calls `DynamicImage::resize` with the nearest-neighbour filter.
///
/// The crate documents that the result keeps the aspect ratio and is the
/// largest picture that fits within the bounds. Believed: the result is a
/// function of the picture and the bounds, called `scaled`; neither of its
/// sides is longer than its bound, and neither is empty. The bounds are kept
/// small so that the result can be allocated.
#[verifier::external_body]
fn scale_nearest(picture: &image::DynamicImage, width: u32, height: u32) -> (small:
    image::DynamicImage)
    requires
        0 < width <= SCALE_LIMIT,
        0 < height <= SCALE_LIMIT,
    ensures
        small == scaled(*picture, width, height),
        1 <= width_of(small) <= width,
        1 <= height_of(small) <= height,
{
    picture.resize(width, height, image::imageops::FilterType::Nearest)
}

/// Calls `DynamicImage::write_to` on a buffer in memory.
///
/// The call converts the picture to a colour type that the format can hold and
/// encodes it with the encoder's default settings. Believed: what it writes is
/// a function of the picture and the format, called `encoded`, and an error of
/// any kind comes back as `None`.
#[verifier::external_body]
fn encode(picture: &image::DynamicImage, kind: ImageKind) -> (bytes: Option<Vec<u8>>)
    ensures
        bytes.deep_view() == encoded(*picture, kind),
{
    let format = match kind {
        ImageKind::Jpeg => image::ImageFormat::Jpeg,
        ImageKind::Png => image::ImageFormat::Png,
        ImageKind::WebP => image::ImageFormat::WebP,
        ImageKind::Gif => image::ImageFormat::Gif,
        ImageKind::Bmp => image::ImageFormat::Bmp,
    };
    let mut out = std::io::Cursor::new(Vec::new());
    match picture.write_to(&mut out, format) {
        Ok(()) => Some(out.into_inner()),
        Err(_) => None,
    }
}

/// The thumbnail of an encoded image: the image decoded, scaled to fit a
/// square of `THUMBNAIL_SIDE` pixels and encoded as JPEG. There is none where
/// the image cannot be decoded or the thumbnail cannot be encoded.
pub open spec fn thumbnail_of(source: Seq<u8>, kind: ImageKind) -> Option<Seq<u8>> {
    match decoded(source, kind) {
        Some(picture) => encoded(scaled(picture, THUMBNAIL_SIDE, THUMBNAIL_SIDE), ImageKind::Jpeg),
        None => None,
    }
}

/// The file name of the thumbnail that belongs to an identifier.
pub open spec fn thumbnail_name(identifier: Seq<char>) -> Seq<char> {
    identifier + ".jpg"@
}

/// Renders the thumbnail of the image held in `source`, which is read as
/// `kind`. `None` says that this image is to be skipped.
///
/// The picture that is encoded has no side longer than `THUMBNAIL_SIDE`
/// pixels.
pub fn render_thumbnail(source: &[u8], kind: ImageKind) -> (thumbnail: Option<Vec<u8>>)
    ensures
        thumbnail.deep_view() == thumbnail_of(source@, kind),
        decoded(source@, kind) matches Some(picture) ==> {
            let small = scaled(picture, THUMBNAIL_SIDE, THUMBNAIL_SIDE);
            &&& 1 <= width_of(small) <= THUMBNAIL_SIDE
            &&& 1 <= height_of(small) <= THUMBNAIL_SIDE
        },
{
    match decode(source, kind) {
        Some(picture) => {
            let small = scale_nearest(&picture, THUMBNAIL_SIDE, THUMBNAIL_SIDE);
            encode(&small, ImageKind::Jpeg)
        },
        None => None,
    }
}

/// The name of the file that holds the thumbnail of `identifier`.
pub fn thumbnail_file_name(identifier: &str) -> (name: String)
    ensures
        name@ == thumbnail_name(identifier@),
{
    let mut name = identifier.to_owned();
    name.append(".jpg");
    name
}

} // verus!
