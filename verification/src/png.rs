//! PNG encoding of rendered pages, done by the `image` crate.

use vstd::prelude::*;

verus! {

/// A rendered page: its size in pixels and its pixels, four bytes (red,
/// green, blue, alpha) per pixel, row by row.
pub struct RasterImage {
    pub width: u32,
    pub height: u32,
    pub rgba: Vec<u8>,
}

/// What the `image` crate's PNG encoder, with its default settings, produces
/// for an RGBA image of the given size and pixels: the file's bytes, or the
/// encoder's error message.
pub uninterp spec fn png_encoding(width: u32, height: u32, rgba: Seq<u8>) -> Result<Seq<u8>, Seq<char>>;

/// Encodes an RGBA image as PNG with `image::codecs::png::PngEncoder`
/// (default compression and filter), as `DynamicImage::write_to` does for
/// PNG. Claims that the result is `png_encoding` of the arguments; the
/// encoder panics when the buffer does not hold exactly four bytes per
/// pixel, which `requires` rules out.
#[verifier::external_body]
pub(crate) fn encode_png(width: u32, height: u32, rgba: &[u8]) -> (r: Result<Vec<u8>, String>)
    requires
        rgba@.len() == width as int * height as int * 4,
    ensures
        match r {
            Ok(bytes) => png_encoding(width, height, rgba@) == Ok::<Seq<u8>, Seq<char>>(bytes@),
            Err(m) => png_encoding(width, height, rgba@) == Err::<Seq<u8>, Seq<char>>(m@),
        },
{
    let mut buf: Vec<u8> = Vec::new();
    let encoder = image::codecs::png::PngEncoder::new(&mut buf);
    match image::ImageEncoder::write_image(encoder, rgba, width, height, image::ExtendedColorType::Rgba8) {
        Ok(()) => Ok(buf),
        Err(e) => Err(e.to_string()),
    }
}

} // verus!
