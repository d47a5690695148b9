//! Images as they are handed to encoders.
use image::ImageEncoder;
use vstd::prelude::*;

verus! {

/// An image: row by row, each pixel in four bytes, for red, green, blue and opacity.
#[derive(Debug)]
pub struct Raster {
    pub width: u32,
    pub height: u32,
    pub rgba: Vec<u8>,
}

impl Raster {
    /// Whether there are as many bytes as the size asks for.
    pub open spec fn wf(&self) -> bool {
        self.rgba@.len() == self.width * self.height * 4
    }
}

/// The bytes of an image that `image::codecs::jpeg::JpegEncoder` writes, or the text of its error.
pub uninterp spec fn jpeg_bytes(width: u32, height: u32, rgba: Seq<u8>, quality: u8) -> Result<
    Seq<u8>,
    Seq<char>,
>;

/// The bytes of an image that `image` writes as a PNG, or the text of its error.
pub uninterp spec fn png_bytes(width: u32, height: u32, rgba: Seq<u8>) -> Result<
    Seq<u8>,
    Seq<char>,
>;

/// `image::DynamicImage::to_rgb8`, and of what it gives `image::codecs::jpeg::JpegEncoder` with
/// this quality. The result depends on the image and the quality alone.
#[verifier::external_body]
pub(crate) fn encode_jpeg(image: &Raster, quality: u8) -> (r: Result<Vec<u8>, String>)
    requires
        image.wf(),
    ensures
        match r {
            Ok(bytes) => jpeg_bytes(image.width, image.height, image.rgba@, quality) == Ok::<
                Seq<u8>,
                Seq<char>,
            >(bytes@),
            Err(e) => jpeg_bytes(image.width, image.height, image.rgba@, quality) == Err::<
                Seq<u8>,
                Seq<char>,
            >(e@),
        },
{
    let buffer = image::RgbaImage::from_raw(image.width, image.height, image.rgba.clone())
        .ok_or_else(|| "incomplete image".to_string())?;
    let rgb = image::DynamicImage::ImageRgba8(buffer).to_rgb8();
    let mut bytes = Vec::new();
    image::codecs::jpeg::JpegEncoder::new_with_quality(&mut bytes, quality)
        .write_image(rgb.as_raw(), rgb.width(), rgb.height(), image::ExtendedColorType::Rgb8)
        .map_err(|error| error.to_string())?;
    Ok(bytes)
}

/// `image::DynamicImage::write_to` with `image::ImageFormat::Png`. The result depends on the image
/// alone.
#[verifier::external_body]
pub(crate) fn encode_png(image: &Raster) -> (r: Result<Vec<u8>, String>)
    requires
        image.wf(),
    ensures
        match r {
            Ok(bytes) => png_bytes(image.width, image.height, image.rgba@) == Ok::<
                Seq<u8>,
                Seq<char>,
            >(bytes@),
            Err(e) => png_bytes(image.width, image.height, image.rgba@) == Err::<
                Seq<u8>,
                Seq<char>,
            >(e@),
        },
{
    let buffer = image::RgbaImage::from_raw(image.width, image.height, image.rgba.clone())
        .ok_or_else(|| "incomplete image".to_string())?;
    let mut bytes = std::io::Cursor::new(Vec::new());
    image::DynamicImage::ImageRgba8(buffer)
        .write_to(&mut bytes, image::ImageFormat::Png)
        .map_err(|error| error.to_string())?;
    Ok(bytes.into_inner())
}

/// The width and the height of an image of the first two sizes that `image::DynamicImage::resize`
/// has made to fit the last two.
pub uninterp spec fn fitted_size(
    width: u32,
    height: u32,
    max_width: u32,
    max_height: u32,
) -> (u32, u32);

/// `image::DynamicImage::resize` with `image::imageops::FilterType::Lanczos3`: the image, made as
/// large as fits, with its proportions kept. The new size depends on the four sizes alone; it is
/// within the bounds, and one of its edges is as long as they allow. The pixels are computed with
/// functions of the machine, so nothing is said of them but that there are as many as the size asks
/// for.
#[verifier::external_body]
pub(crate) fn resize_image(image: &Raster, width: u32, height: u32) -> (r: Raster)
    requires
        image.wf(),
        image.width > 0,
        image.height > 0,
        width > 0,
        height > 0,
    ensures
        r.wf(),
        (r.width, r.height) == fitted_size(image.width, image.height, width, height),
        1 <= r.width <= width,
        1 <= r.height <= height,
        r.width == width || r.height == height,
{
    let buffer = image::RgbaImage::from_raw(image.width, image.height, image.rgba.clone())
        .unwrap_or_default();
    let scaled = image::DynamicImage::ImageRgba8(buffer)
        .resize(width, height, image::imageops::FilterType::Lanczos3)
        .to_rgba8();
    Raster { width: scaled.width(), height: scaled.height(), rgba: scaled.into_raw() }
}

} // verus!
