//! Decoded pictures. Decoding is the work of the `image` crate; this module states
//! what is taken on trust of it and reads the pixels of a decoded picture out into
//! plain values.

use vstd::prelude::*;

use image::DynamicImage;

verus! {

/// One pixel of a picture: its column, its row (counted from the top) and its four
/// bytes red, green, blue, alpha.
pub type Texel = (u32, u32, [u8; 4]);

/// A picture as the `image` crate holds it once decoded.
#[verifier::external_type_specification]
#[verifier::external_body]
pub struct ExDynamicImage(image::DynamicImage);

/// A picture file format as the `image` crate names it.
#[verifier::external_type_specification]
#[verifier::external_body]
pub struct ExImageFormat(image::ImageFormat);

/// Number of columns of a decoded picture.
pub uninterp spec fn picture_width(img: image::DynamicImage) -> u32;

/// Number of rows of a decoded picture.
pub uninterp spec fn picture_height(img: image::DynamicImage) -> u32;

/// How a decoded picture holds the channels of its pixels: grey or colour, with or
/// without alpha, as integers of 8 or 16 bits or as floating-point numbers of 32 bits.
pub enum Channels {
    Luma8,
    LumaA8,
    Rgb8,
    Rgba8,
    Luma16,
    LumaA16,
    Rgb16,
    Rgba16,
    Rgb32F,
    Rgba32F,
    Other,
}

/// How a decoded picture holds its channels.
pub uninterp spec fn picture_channels(img: image::DynamicImage) -> Channels;

/// Whether channels held in this way are integers.
pub open spec fn integral(channels: Channels) -> bool {
    channels is Luma8 || channels is LumaA8 || channels is Rgb8 || channels is Rgba8
        || channels is Luma16 || channels is LumaA16 || channels is Rgb16 || channels is Rgba16
}

/// Whether a decoded picture holds its channels as integers, of 8 or of 16 bits,
/// rather than as floating-point numbers.
pub open spec fn picture_is_integral(img: image::DynamicImage) -> bool {
    integral(picture_channels(img))
}

/// The format that the extension of a file name stands for, if it stands for one.
pub uninterp spec fn format_named(filename: Seq<char>) -> Option<image::ImageFormat>;

/// The pixels of a decoded picture, each as its four bytes red, green, blue, alpha,
/// by column and row (rows counted from the top).
pub uninterp spec fn picture_pixels(img: image::DynamicImage) -> Map<(u32, u32), [u8; 4]>;

/// `image::ImageFormat::from_path` finds the format that the extension of a file name
/// stands for: the result goes by the name alone. `None` stands for its error.
#[verifier::external_body]
pub(crate) fn format_of(filename: &str) -> (r: Option<image::ImageFormat>)
    ensures
        r == format_named(filename@),
{
    image::ImageFormat::from_path(filename).ok()
}

/// `image::load_from_memory_with_format` decodes the contents of a picture file in the
/// given format. Nothing is claimed of the result: what a decoder makes of the same
/// contents may differ from one machine to another. `None` stands for its error.
#[verifier::external_body]
pub(crate) fn decode_as(contents: &[u8], format: image::ImageFormat) -> Option<
    image::DynamicImage,
> {
    image::load_from_memory_with_format(contents, format).ok()
}

/// `image::DynamicImage::width` returns the number of columns of the picture.
pub assume_specification[ image::DynamicImage::width ](img: &image::DynamicImage) -> (w: u32)
    ensures
        w == picture_width(*img),
;

/// `image::DynamicImage::height` returns the number of rows of the picture.
pub assume_specification[ image::DynamicImage::height ](img: &image::DynamicImage) -> (h: u32)
    ensures
        h == picture_height(*img),
;

/// Tells which of its kinds a `image::DynamicImage` is; a kind that is none of those
/// listed is `Other`.
#[verifier::external_body]
fn channels_of(img: &image::DynamicImage) -> (c: Channels)
    ensures
        c == picture_channels(*img),
{
    match img {
        DynamicImage::ImageLuma8(_) => Channels::Luma8,
        DynamicImage::ImageLumaA8(_) => Channels::LumaA8,
        DynamicImage::ImageRgb8(_) => Channels::Rgb8,
        DynamicImage::ImageRgba8(_) => Channels::Rgba8,
        DynamicImage::ImageLuma16(_) => Channels::Luma16,
        DynamicImage::ImageLumaA16(_) => Channels::LumaA16,
        DynamicImage::ImageRgb16(_) => Channels::Rgb16,
        DynamicImage::ImageRgba16(_) => Channels::Rgba16,
        DynamicImage::ImageRgb32F(_) => Channels::Rgb32F,
        DynamicImage::ImageRgba32F(_) => Channels::Rgba32F,
        _ => Channels::Other,
    }
}

/// Reads one pixel with `image::GenericImageView::get_pixel`, which converts it to
/// 8-bit RGBA. The call panics for a column or row outside the picture, and for a
/// floating-point channel that is no number; both are left out.
#[verifier::external_body]
fn pixel_of(img: &image::DynamicImage, x: u32, y: u32) -> (bytes: [u8; 4])
    requires
        picture_is_integral(*img),
        x < picture_width(*img),
        y < picture_height(*img),
    ensures
        bytes == picture_pixels(*img)[(x, y)],
{
    image::GenericImageView::get_pixel(img, x, y).0
}

/// Whether channels held in this way are integers.
fn is_integral(channels: Channels) -> (b: bool)
    ensures
        b == integral(channels),
{
    match channels {
        Channels::Luma8 | Channels::LumaA8 | Channels::Rgb8 | Channels::Rgba8 => true,
        Channels::Luma16 | Channels::LumaA16 | Channels::Rgb16 | Channels::Rgba16 => true,
        Channels::Rgb32F | Channels::Rgba32F | Channels::Other => false,
    }
}

/// Column and row of the `k`-th pixel of a picture of `width` columns, counted row by
/// row from the top and in each row from the left.
pub open spec fn cell(width: u32, k: int) -> (u32, u32) {
    ((k % (width as int)) as u32, (k / (width as int)) as u32)
}

/// The pixels of a picture row by row from the top, each row from the left.
pub open spec fn picture_data(
    width: u32,
    height: u32,
    pixels: Map<(u32, u32), [u8; 4]>,
) -> Seq<[u8; 4]> {
    Seq::new((width * height) as nat, |k: int| pixels[cell(width, k)])
}

/// The pixels `data` of a picture of `width` columns, each with its column and row.
pub open spec fn grid(width: u32, data: Seq<[u8; 4]>) -> Seq<Texel> {
    Seq::new(data.len(), |k: int| (cell(width, k).0, cell(width, k).1, data[k]))
}

/// The `k`-th pixel of a picture lies in column `k % width` of row `k / width`.
pub proof fn lemma_cell(width: u32, x: u32, y: u32)
    requires
        x < width,
    ensures
        cell(width, y * width + x) == (x, y),
{
    vstd::arithmetic::div_mod::lemma_fundamental_div_mod_converse(
        y * width + x,
        width as int,
        y as int,
        x as int,
    );
}

/// The pixels of a decoded picture, read out row by row from the top, each row from
/// the left. A picture of floating-point channels that has any pixel is not read.
pub(crate) fn read_out(img: &image::DynamicImage) -> (r: Option<Vec<[u8; 4]>>)
    ensures
        r is None <==> !picture_is_integral(*img) && picture_width(*img) > 0 && picture_height(
            *img,
        ) > 0,
        r matches Some(data) ==> data@ == picture_data(
            picture_width(*img),
            picture_height(*img),
            picture_pixels(*img),
        ),
{
    let width = img.width();
    let height = img.height();
    // Floating-point channels are not converted: one that is no number cannot be.
    if !is_integral(channels_of(img)) && width > 0 && height > 0 {
        return None;
    }
    let ghost pixels = picture_pixels(*img);
    let mut data: Vec<[u8; 4]> = Vec::new();
    for y in 0..height
        invariant
            width == picture_width(*img),
            height == picture_height(*img),
            pixels == picture_pixels(*img),
            picture_is_integral(*img) || width == 0 || height == 0,
            data@.len() == y * width,
            forall|k: int| 0 <= k < data@.len() ==> data@[k] == pixels[cell(width, k)],
    {
        for x in 0..width
            invariant
                y < height,
                width == picture_width(*img),
                height == picture_height(*img),
                pixels == picture_pixels(*img),
                picture_is_integral(*img) || width == 0 || height == 0,
                data@.len() == y * width + x,
                forall|k: int| 0 <= k < data@.len() ==> data@[k] == pixels[cell(width, k)],
        {
            let bytes = pixel_of(img, x, y);
            proof {
                lemma_cell(width, x, y);
            }
            data.push(bytes);
        }
        assert((y + 1) * width == y * width + width) by (nonlinear_arith);
    }
    proof {
        assert(height * width == width * height) by (nonlinear_arith);
        assert(data@ =~= picture_data(width, height, pixels));
    }
    Some(data)
}

} // verus!
