//! Decoded images, and the grayscale image of one of their colour channels.
//!
//! A decoded image is a value of the `image` crate. What this module knows of
//! one is its width and height, whether its samples are floating-point
//! numbers and, for each coordinate inside them, the pixel that the crate
//! reports there: four 8-bit samples, red, green, blue and alpha.
//!
//! An image of floating-point samples is not read here: the crate's
//! conversion of such a sample to 8 bits panics where the sample is no
//! number. The caller converts such an image to 8-bit samples first.

use vstd::prelude::*;
use image::DynamicImage;
use image::GenericImageView;
use image::ImageBuffer;
use image::Rgba;
use crate::error::SplitError;

verus! {

#[verifier::external_type_specification]
#[verifier::external_body]
pub struct ExDynamicImage(DynamicImage);

/// An image of 8-bit red, green, blue and alpha samples that is being
/// filled in, pixel by pixel. It holds a buffer of the `image` crate.
#[verifier::external_body]
pub struct Canvas {
    buffer: ImageBuffer<Rgba<u8>, Vec<u8>>,
}

/// Width and height of a decoded image.
pub uninterp spec fn image_dimensions(img: DynamicImage) -> (int, int);

/// The pixels of a decoded image by coordinate, column first, each as its
/// four samples.
pub uninterp spec fn image_pixels(img: DynamicImage) -> Map<(int, int), Seq<u8>>;

/// Whether the samples of a decoded image are 32-bit floating-point numbers.
pub uninterp spec fn float_samples(img: DynamicImage) -> bool;

/// Width and height of a canvas.
pub uninterp spec fn canvas_dimensions(canvas: Canvas) -> (int, int);

/// The pixels of a canvas by coordinate, column first, each as its four samples.
pub uninterp spec fn canvas_pixels(canvas: Canvas) -> Map<(int, int), Seq<u8>>;

/// The coordinate lies inside an image of the given width and height.
pub open spec fn in_bounds(at: (int, int), dimensions: (int, int)) -> bool {
    0 <= at.0 < dimensions.0 && 0 <= at.1 < dimensions.1
}

/// An image of these dimensions with four 8-bit samples per pixel fits in
/// one allocation.
pub open spec fn rgba_fits(dimensions: (int, int)) -> bool {
    4 * dimensions.0 * dimensions.1 <= isize::MAX
}

/// The image can be split: its samples are integers, and a grayscale copy
/// of it fits in one allocation.
pub open spec fn splittable(img: DynamicImage) -> bool {
    !float_samples(img) && rgba_fits(image_dimensions(img))
}

/// The gray pixel of a sample: the sample in red, green and blue, and an
/// opaque alpha.
pub open spec fn gray(sample: u8) -> Seq<u8> {
    seq![sample, sample, sample, 255u8]
}

/// The grayscale image of one channel: at every coordinate of the source,
/// the gray pixel of the source pixel's sample in that channel.
pub open spec fn gray_pixels(img: DynamicImage, channel: int) -> Map<(int, int), Seq<u8>> {
    Map::new(
        |at: (int, int)| in_bounds(at, image_dimensions(img)),
        |at: (int, int)| gray(image_pixels(img)[at][channel]),
    )
}

/// `GenericImageView::dimensions` of `DynamicImage`: width and height.
/// Trusted: they are those of the image.
#[verifier::external_body]
fn image_size(img: &DynamicImage) -> (size: (u32, u32))
    ensures
        (size.0 as int, size.1 as int) == image_dimensions(*img),
{
    img.dimensions()
}

/// The variant of a `DynamicImage`. Trusted: `ImageRgb32F` and
/// `ImageRgba32F` are the variants of floating-point samples.
#[verifier::external_body]
fn is_float_image(img: &DynamicImage) -> (float: bool)
    ensures
        float == float_samples(*img),
{
    match img {
        DynamicImage::ImageRgb32F(_) => true,
        DynamicImage::ImageRgba32F(_) => true,
        _ => false,
    }
}

/// `GenericImageView::get_pixel` of `DynamicImage`: the pixel at a coordinate
/// inside the image, as 8-bit samples. Trusted: it is the image's pixel there.
/// The call panics outside the image, and on a floating-point sample that
/// is no number; `requires` rules out both, the second with every image of
/// floating-point samples.
#[verifier::external_body]
fn image_pixel(img: &DynamicImage, x: u32, y: u32) -> (pixel: [u8; 4])
    requires
        !float_samples(*img),
        in_bounds((x as int, y as int), image_dimensions(*img)),
    ensures
        pixel@ == image_pixels(*img)[(x as int, y as int)],
{
    img.get_pixel(x, y).0
}

/// `ImageBuffer::new`: a buffer of the given width and height. Trusted: it
/// has these dimensions, and every sample in it is zero. The call panics
/// where the samples do not fit in one allocation, which `requires` rules out.
#[verifier::external_body]
fn new_canvas(width: u32, height: u32) -> (canvas: Canvas)
    requires
        rgba_fits((width as int, height as int)),
    ensures
        canvas_dimensions(canvas) == (width as int, height as int),
        canvas_pixels(canvas) == Map::new(
            |at: (int, int)| in_bounds(at, (width as int, height as int)),
            |at: (int, int)| seq![0u8, 0u8, 0u8, 0u8],
        ),
{
    Canvas { buffer: ImageBuffer::new(width, height) }
}

/// `ImageBuffer::put_pixel`: stores a pixel at a coordinate inside the
/// buffer. Trusted: that pixel changes and nothing else does. The call
/// panics outside the buffer, which `requires` rules out.
#[verifier::external_body]
fn put_pixel(canvas: &mut Canvas, x: u32, y: u32, pixel: [u8; 4])
    requires
        in_bounds((x as int, y as int), canvas_dimensions(*old(canvas))),
    ensures
        canvas_dimensions(*final(canvas)) == canvas_dimensions(*old(canvas)),
        canvas_pixels(*final(canvas)) == canvas_pixels(*old(canvas)).insert(
            (x as int, y as int),
            pixel@,
        ),
{
    canvas.buffer.put_pixel(x, y, Rgba(pixel));
}

/// `DynamicImage::ImageRgba8`: the buffer as a decoded image. Trusted:
/// dimensions and pixels are those of the buffer, and the samples are no
/// floating-point numbers.
#[verifier::external_body]
fn into_image(canvas: Canvas) -> (img: DynamicImage)
    ensures
        !float_samples(img),
        image_dimensions(img) == canvas_dimensions(canvas),
        image_pixels(img) == canvas_pixels(canvas),
{
    DynamicImage::ImageRgba8(canvas.buffer)
}

/// What the extraction of a channel gives: for a channel other than red,
/// green and blue the error that names it; else the grayscale image of the
/// channel, of the source's dimensions.
pub open spec fn is_extraction(
    img: DynamicImage,
    channel: usize,
    outcome: Result<DynamicImage, SplitError>,
) -> bool {
    if channel > 2 {
        outcome == Err::<DynamicImage, SplitError>(SplitError::InvalidChannelIndex { index: channel })
    } else {
        &&& outcome matches Ok(out)
        &&& !float_samples(out)
        &&& image_dimensions(out) == image_dimensions(img)
        &&& image_pixels(out) == gray_pixels(img, channel as int)
    }
}

/// The grayscale image of one channel of `img`: every pixel of the result
/// holds, in red, green and blue, the sample that the source pixel at the
/// same place has in `channel`, and 255 in alpha. The channel is tested
/// first: an invalid one is refused whatever the image.
pub fn extract_channel(img: &DynamicImage, channel: usize) -> (outcome: Result<
    DynamicImage,
    SplitError,
>)
    requires
        channel <= 2 ==> splittable(*img),
    ensures
        is_extraction(*img, channel, outcome),
{
    if channel > 2 {
        return Err(SplitError::InvalidChannelIndex { index: channel });
    }
    let (width, height) = image_size(img);
    let mut canvas = new_canvas(width, height);
    let mut y: u32 = 0;
    while y < height
        invariant
            y <= height,
            channel <= 2,
            !float_samples(*img),
            image_dimensions(*img) == (width as int, height as int),
            canvas_dimensions(canvas) == (width as int, height as int),
            canvas_pixels(canvas).dom() =~= Set::new(
                |at: (int, int)| in_bounds(at, (width as int, height as int)),
            ),
            forall|at: (int, int)|
                in_bounds(at, (width as int, height as int)) && at.1 < y
                    ==> #[trigger] canvas_pixels(canvas)[at] == gray(
                    image_pixels(*img)[at][channel as int],
                ),
        decreases height - y,
    {
        let mut x: u32 = 0;
        while x < width
            invariant
                x <= width,
                y < height,
                channel <= 2,
                !float_samples(*img),
                image_dimensions(*img) == (width as int, height as int),
                canvas_dimensions(canvas) == (width as int, height as int),
                canvas_pixels(canvas).dom() =~= Set::new(
                    |at: (int, int)| in_bounds(at, (width as int, height as int)),
                ),
                forall|at: (int, int)|
                    in_bounds(at, (width as int, height as int)) && (at.1 < y || (at.1 == y
                        && at.0 < x)) ==> #[trigger] canvas_pixels(canvas)[at] == gray(
                        image_pixels(*img)[at][channel as int],
                    ),
            decreases width - x,
        {
            let pixel = image_pixel(img, x, y);
            let sample: u8 = pixel[channel];
            put_pixel(&mut canvas, x, y, [sample, sample, sample, 255]);
            x += 1;
        }
        y += 1;
    }
    let out = into_image(canvas);
    assert(image_pixels(out) =~= gray_pixels(*img, channel as int));
    Ok(out)
}

/// `extract_channel` for any image: `None` where a valid channel is asked
/// of an image that cannot be split, because its samples are floating-point
/// numbers or because its grayscale copy does not fit in one allocation.
pub fn try_extract_channel(img: &DynamicImage, channel: usize) -> (outcome: Option<
    Result<DynamicImage, SplitError>,
>)
    ensures
        channel <= 2 && !splittable(*img) ==> outcome is None,
        channel > 2 || splittable(*img) ==> (outcome matches Some(r) && is_extraction(
            *img,
            channel,
            r,
        )),
{
    if channel <= 2 {
        if is_float_image(img) {
            return None;
        }
        let (width, height) = image_size(img);
        assert(width * height <= 0xffff_ffff * 0xffff_ffff) by (nonlinear_arith)
            requires
                width <= 0xffff_ffff,
                height <= 0xffff_ffff,
        ;
        assert(4 * width * height == 4 * (width * height)) by (nonlinear_arith);
        let pixels: u64 = (width as u64) * (height as u64);
        if pixels > (isize::MAX as u64) / 4 {
            return None;
        }
    }
    Some(extract_channel(img, channel))
}

/// Every pixel of an extracted image holds the source pixel's sample of
/// the channel three times over, and an opaque alpha. For channel 0 that
/// sample is the red one.
pub proof fn lemma_extracted_pixel(
    img: DynamicImage,
    channel: usize,
    out: DynamicImage,
    x: int,
    y: int,
)
    requires
        channel <= 2,
        is_extraction(img, channel, Ok(out)),
        in_bounds((x, y), image_dimensions(img)),
    ensures
        in_bounds((x, y), image_dimensions(out)),
        image_pixels(out)[(x, y)] == seq![
            image_pixels(img)[(x, y)][channel as int],
            image_pixels(img)[(x, y)][channel as int],
            image_pixels(img)[(x, y)][channel as int],
            255u8,
        ],
{
}

/// The image of a channel is determined by the source and the channel
/// alone: whatever else is extracted from the source, before or after, and
/// in whatever order, two extractions of one channel agree pixel for pixel.
pub proof fn lemma_extraction_determined(
    img: DynamicImage,
    channel: usize,
    first: Result<DynamicImage, SplitError>,
    second: Result<DynamicImage, SplitError>,
)
    requires
        is_extraction(img, channel, first),
        is_extraction(img, channel, second),
    ensures
        first is Err ==> first == second,
        first is Ok ==> second is Ok && image_dimensions(first->Ok_0) == image_dimensions(
            second->Ok_0,
        ) && image_pixels(first->Ok_0) == image_pixels(second->Ok_0) && float_samples(
            first->Ok_0,
        ) == float_samples(second->Ok_0),
{
}

} // verus!
