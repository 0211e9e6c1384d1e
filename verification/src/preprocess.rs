//! Letterbox preprocessing: from a raw frame to the tensor that a detector
//! reads.
//!
//! The tensor holds samples in units of `1 / LEVELS`, so that the padding,
//! one half, and every 8-bit level divided by 255 are whole numbers.

use crate::img_dimensions::saturated;
use crate::img_dimensions::ImgDimensions;
use crate::img_dimensions::Ratio;
use fast_image_resize::images::Image;
use fast_image_resize::images::ImageRef;
use fast_image_resize::PixelType;
use fast_image_resize::ResizeAlg;
use fast_image_resize::ResizeOptions;
use fast_image_resize::Resizer;
use vstd::arithmetic::div_mod::lemma_fundamental_div_mod_converse;
use vstd::prelude::*;

verus! {

/// Colour channels of a frame and planes of a tensor.
pub const CHANNELS: u32 = 3;

/// The tensor value that stands for one.
pub const LEVELS: u16 = 510;

/// The tensor value of the padding: one half.
pub const GRAY: u16 = 255;

/// The longer side of the input of a detector that takes no padding.
pub const MODEL_SIDE: u32 = 640;

/// The sides of such an input are multiples of this.
pub const MODEL_STRIDE: u32 = 32;

/// A raw frame: `height` rows of `width` pixels of `channels` bytes each,
/// row-major, without padding.
#[derive(Debug, Clone, PartialEq, Eq)]
pub struct Frame {
    pub width: u32,
    pub height: u32,
    pub channels: u32,
    pub data: Vec<u8>,
}

/// A tensor of shape `[1, 3, height, width]`, channel-major: the sample of
/// channel `c` at row `y` and column `x` stands at
/// `(c * height + y) * width + x`.
#[derive(Debug, Clone, PartialEq, Eq)]
pub struct Canvas {
    pub width: u32,
    pub height: u32,
    pub data: Vec<u16>,
}

/// Why a frame was not preprocessed.
#[derive(Debug, Clone, Copy, PartialEq, Eq, Structural)]
pub enum PreprocessError {
    /// The frame has no width or no height.
    ZeroArea,
    /// The frame does not have three channels.
    NotRgb,
    /// The frame holds fewer bytes than its dimensions ask for.
    BufferTooSmall,
    /// The tensor would hold more values than can be addressed.
    CanvasTooLarge,
    /// The resizer reported an error or delivered too few pixels.
    ResizeFailed,
}

/// The factor that fits `src` into `target` without distortion: the lesser
/// of the two ratios of their sides.
pub open spec fn letterbox_ratio(src: ImgDimensions, target: ImgDimensions) -> Ratio {
    if target.width * src.height <= target.height * src.width {
        Ratio { num: target.width, den: src.width }
    } else {
        Ratio { num: target.height, den: src.height }
    }
}

/// What `src` measures once scaled to fit into `target`: each side times
/// the factor, rounded to the nearest whole pixel.
pub open spec fn letterbox_dims(src: ImgDimensions, target: ImgDimensions) -> ImgDimensions {
    let ratio = letterbox_ratio(src, target);
    ImgDimensions {
        width: saturated(ratio.rounded(src.width as nat)),
        height: saturated(ratio.rounded(src.height as nat)),
    }
}

/// A side that the factor maps onto a side of the canvas: scaled and
/// rounded it is that side exactly.
proof fn lemma_rounded_exact(side: int, to: int)
    requires
        side > 0,
        to >= 0,
    ensures
        (side * to + side / 2) / side == to,
{
    assert(side * to == to * side) by (nonlinear_arith);
    lemma_fundamental_div_mod_converse(side * to + side / 2, side, to, side / 2);
}

/// A side that scaled exactly would not go beyond `limit` does not go
/// beyond it rounded either.
proof fn lemma_rounded_within(side: int, num: int, den: int, limit: int)
    requires
        den > 0,
        side >= 0,
        num >= 0,
        side * num <= limit * den,
    ensures
        0 <= (side * num + den / 2) / den <= limit,
{
    let q = (side * num + den / 2) / den;
    assert(0 <= side * num) by (nonlinear_arith)
        requires
            side >= 0,
            num >= 0,
    ;
    assert(q * den <= side * num + den / 2 && 0 <= q) by (nonlinear_arith)
        requires
            q == (side * num + den / 2) / den,
            den > 0,
            0 <= side * num + den / 2,
    ;
    if q > limit {
        assert(q * den >= limit * den + den) by (nonlinear_arith)
            requires
                q >= limit + 1,
                den > 0,
        ;
    }
}

/// The scaled image fits into the canvas, and fills it along the side that
/// limits it.
pub proof fn lemma_letterbox_fits(src: ImgDimensions, target: ImgDimensions)
    requires
        src.width > 0,
        src.height > 0,
    ensures
        letterbox_dims(src, target).width <= target.width,
        letterbox_dims(src, target).height <= target.height,
        letterbox_dims(src, target).width == target.width || letterbox_dims(src, target).height
            == target.height,
{
    let sw = src.width as int;
    let sh = src.height as int;
    let tw = target.width as int;
    let th = target.height as int;
    if tw * sh <= th * sw {
        lemma_rounded_exact(sw, tw);
        assert(sh * tw == tw * sh) by (nonlinear_arith);
        lemma_rounded_within(sh, tw, sw, th);
    } else {
        lemma_rounded_exact(sh, th);
        assert(sw * th == th * sw) by (nonlinear_arith);
        assert(tw * sh == sh * tw) by (nonlinear_arith);
        lemma_rounded_within(sw, th, sh, tw);
    }
}

/// A frame as wide as the canvas and no taller is scaled by one: it keeps
/// its dimensions.
pub proof fn lemma_letterbox_same_width(src: ImgDimensions, target: ImgDimensions)
    requires
        src.width > 0,
        src.width == target.width,
        src.height <= target.height,
    ensures
        letterbox_ratio(src, target).num == letterbox_ratio(src, target).den,
        letterbox_dims(src, target) == src,
{
    let w = src.width as int;
    let h = src.height as int;
    assert(target.width * src.height <= target.height * src.width) by (nonlinear_arith)
        requires
            src.width == target.width,
            src.height <= target.height,
    ;
    lemma_rounded_exact(w, w);
    assert(h * w == w * h) by (nonlinear_arith);
    lemma_fundamental_div_mod_converse(h * w + w / 2, w, h, w / 2);
}

/// Computes the factor that fits `src` into `target`.
pub fn fit_ratio(src: ImgDimensions, target: ImgDimensions) -> (ratio: Ratio)
    ensures
        ratio == letterbox_ratio(src, target),
{
    assert(target.width * src.height <= 0xFFFF_FFFF * 0xFFFF_FFFF) by (nonlinear_arith)
        requires
            target.width <= 0xFFFF_FFFF,
            src.height <= 0xFFFF_FFFF,
    ;
    assert(target.height * src.width <= 0xFFFF_FFFF * 0xFFFF_FFFF) by (nonlinear_arith)
        requires
            target.height <= 0xFFFF_FFFF,
            src.width <= 0xFFFF_FFFF,
    ;
    if target.width as u64 * src.height as u64 <= target.height as u64 * src.width as u64 {
        Ratio { num: target.width, den: src.width }
    } else {
        Ratio { num: target.height, den: src.height }
    }
}

/// The input size of a detector that takes no padding: the longer side
/// becomes `MODEL_SIDE`, the shorter one follows in proportion, rounded
/// down to a multiple of `MODEL_STRIDE`.
pub open spec fn stride_dims(width: u32, height: u32) -> ImgDimensions {
    if width < height {
        ImgDimensions {
            width: ((width * MODEL_SIDE / height as int) / MODEL_STRIDE as int * MODEL_STRIDE) as u32,
            height: MODEL_SIDE,
        }
    } else {
        ImgDimensions {
            width: MODEL_SIDE,
            height: ((height * MODEL_SIDE / width as int) / MODEL_STRIDE as int * MODEL_STRIDE) as u32,
        }
    }
}

/// Computes the input size of a detector that takes no padding; `None` for
/// a frame without width and height.
pub fn stride_aligned_dims(width: u32, height: u32) -> (dims: Option<ImgDimensions>)
    ensures
        dims is Some <==> width > 0 || height > 0,
        dims matches Some(d) ==> d == stride_dims(width, height) && d.width <= MODEL_SIDE
            && d.height <= MODEL_SIDE,
{
    if width == 0 && height == 0 {
        return None;
    }
    if width < height {
        let scaled = scale_side(width, height);
        Some(ImgDimensions { width: scaled, height: MODEL_SIDE })
    } else {
        let scaled = scale_side(height, width);
        Some(ImgDimensions { width: MODEL_SIDE, height: scaled })
    }
}

/// The shorter side `short` once the longer side `long` has become
/// `MODEL_SIDE`, rounded down to a multiple of `MODEL_STRIDE`.
fn scale_side(short: u32, long: u32) -> (side: u32)
    requires
        short <= long,
        long > 0,
    ensures
        side == (short * MODEL_SIDE / long as int) / MODEL_STRIDE as int * MODEL_STRIDE,
        side <= MODEL_SIDE,
{
    let product: u64 = short as u64 * 640;
    let scaled: u64 = product / long as u64;
    assert(scaled <= 640) by (nonlinear_arith)
        requires
            scaled == (short * 640) / long as int,
            short <= long,
            long > 0,
            short >= 0,
    ;
    let blocks: u64 = scaled / 32;
    let aligned: u64 = blocks * 32;
    aligned as u32
}

/// The tensor value of channel `c` at row `y` and column `x`: twice the
/// pixel's level where the scaled image covers the place, the padding
/// elsewhere. The scaled image lies flush against the top-left corner.
pub open spec fn canvas_cell(resized: Seq<u8>, scaled: ImgDimensions, c: int, y: int, x: int) -> u16 {
    if x < scaled.width && y < scaled.height {
        (2 * resized[(y * scaled.width + x) * CHANNELS + c]) as u16
    } else {
        GRAY
    }
}

/// The tensor value at place `i` of the data.
pub open spec fn flat_cell(
    resized: Seq<u8>,
    scaled: ImgDimensions,
    target: ImgDimensions,
    i: int,
) -> u16 {
    let row = i / target.width as int;
    canvas_cell(
        resized,
        scaled,
        row / target.height as int,
        row % target.height as int,
        i % target.width as int,
    )
}

/// The number of values in a tensor for `target`.
pub open spec fn canvas_len(target: ImgDimensions) -> nat {
    (CHANNELS * target.height * target.width) as nat
}

/// `data` is the tensor for `target` that holds the scaled image `resized`.
pub open spec fn is_canvas_of(
    data: Seq<u16>,
    resized: Seq<u8>,
    scaled: ImgDimensions,
    target: ImgDimensions,
) -> bool {
    &&& data.len() == canvas_len(target)
    &&& forall|i: int| 0 <= i < data.len() ==> #[trigger] data[i] == flat_cell(resized, scaled, target, i)
}

/// Where channel `c`, row `y` and column `x` stand in the data.
pub open spec fn canvas_index(target: ImgDimensions, c: int, y: int, x: int) -> int {
    (c * target.height + y) * target.width + x
}

/// A channel, a row and a column have their place in the data, and the
/// place leads back to them.
pub proof fn lemma_canvas_index(target: ImgDimensions, c: int, y: int, x: int)
    requires
        0 <= c < CHANNELS,
        0 <= y < target.height,
        0 <= x < target.width,
    ensures
        0 <= canvas_index(target, c, y, x) < canvas_len(target),
        canvas_index(target, c, y, x) % (target.width as int) == x,
        (canvas_index(target, c, y, x) / (target.width as int)) % (target.height as int) == y,
        (canvas_index(target, c, y, x) / (target.width as int)) / (target.height as int) == c,
{
    let w = target.width as int;
    let h = target.height as int;
    let row = c * h + y;
    assert(0 <= c * h) by (nonlinear_arith)
        requires
            0 <= c,
            0 <= h,
    ;
    assert(c * h + h <= 3 * h) by (nonlinear_arith)
        requires
            c + 1 <= 3,
            0 <= h,
    ;
    assert(0 <= row * w) by (nonlinear_arith)
        requires
            0 <= row,
            0 <= w,
    ;
    assert(row * w + w <= 3 * h * w) by (nonlinear_arith)
        requires
            row + 1 <= 3 * h,
            0 <= w,
    ;
    lemma_fundamental_div_mod_converse(row * w + x, w, row, x);
    lemma_fundamental_div_mod_converse(row, h, c, y);
}

/// The tensor for `target` that holds the scaled image, read by channel,
/// row and column.
pub proof fn lemma_canvas_cell(
    data: Seq<u16>,
    resized: Seq<u8>,
    scaled: ImgDimensions,
    target: ImgDimensions,
    c: int,
    y: int,
    x: int,
)
    requires
        is_canvas_of(data, resized, scaled, target),
        0 <= c < CHANNELS,
        0 <= y < target.height,
        0 <= x < target.width,
    ensures
        0 <= canvas_index(target, c, y, x) < data.len(),
        data[canvas_index(target, c, y, x)] == canvas_cell(resized, scaled, c, y, x),
{
    lemma_canvas_index(target, c, y, x);
}

/// A pixel's channel has its place among the bytes of an image.
proof fn lemma_pixel_index(width: int, height: int, c: int, y: int, x: int)
    requires
        0 <= c < 3,
        0 <= y < height,
        0 <= x < width,
    ensures
        0 <= y * width,
        0 <= (y * width + x) * 3 + c < 3 * width * height,
        y * width + x < width * height,
{
    assert(0 <= y * width) by (nonlinear_arith)
        requires
            0 <= y,
            0 <= width,
    ;
    assert(y * width + width <= width * height) by (nonlinear_arith)
        requires
            y + 1 <= height,
            0 <= width,
    ;
    assert(3 * (width * height) == 3 * width * height) by (nonlinear_arith);
}

/// What the resizer makes of packed 8-bit RGB pixels with nearest-neighbour
/// sampling: the pixels of the destination, packed likewise.
pub uninterp spec fn nearest_resized(
    src: Seq<u8>,
    src_width: u32,
    src_height: u32,
    dst_width: u32,
    dst_height: u32,
) -> Seq<u8>;

/// `fast_image_resize::Resizer::resize` with `ResizeAlg::Nearest`, from a
/// view of `src` as `src_width` by `src_height` pixels of type `U8x3` into a
/// fresh image of `dst_width` by `dst_height` such pixels. `None` stands
/// for an error of the crate. Claimed of the crate:
/// - it reports no error here: the view fails only on a buffer that is too
///   short, which `requires` leaves out, or misaligned, which bytes are not;
///   the resizing fails only on pixel types that differ or on a crop box
///   beyond the source, and none is set;
/// - the bytes that come back are three for each pixel of the destination,
///   as the fresh image was allocated;
/// - they are its resampling of the source, which depends on nothing but
///   the arguments.
#[verifier::external_body]
fn resize_nearest(
    src: &Vec<u8>,
    src_width: u32,
    src_height: u32,
    dst_width: u32,
    dst_height: u32,
) -> (out: Option<Vec<u8>>)
    requires
        src@.len() >= 3 * src_width * src_height,
        3 * dst_width * dst_height <= usize::MAX,
    ensures
        out is Some,
        out matches Some(pixels) ==> pixels@ == nearest_resized(
            src@,
            src_width,
            src_height,
            dst_width,
            dst_height,
        ) && pixels@.len() == 3 * dst_width * dst_height,
{
    let source = ImageRef::new(src_width, src_height, src, PixelType::U8x3).ok()?;
    let mut scaled = Image::new(dst_width, dst_height, PixelType::U8x3);
    let options = ResizeOptions::new().resize_alg(ResizeAlg::Nearest);
    Resizer::new().resize(&source, &mut scaled, &options).ok()?;
    Some(scaled.into_vec())
}

/// Lays the scaled image `resized` into a tensor for `target`: the padding
/// everywhere, the image flush against the top-left corner, each level
/// doubled.
fn fill_canvas(resized: &Vec<u8>, scaled: ImgDimensions, target: ImgDimensions) -> (canvas: Canvas)
    requires
        resized@.len() >= 3 * scaled.width * scaled.height,
        canvas_len(target) <= usize::MAX,
    ensures
        canvas.width == target.width,
        canvas.height == target.height,
        is_canvas_of(canvas.data@, resized@, scaled, target),
{
    let mut data: Vec<u16> = Vec::new();
    let len = resized.len();
    let mut c: u32 = 0;
    proof {
        assert(canvas_index(target, 0, 0, 0) == 0) by (nonlinear_arith);
    }
    while c < CHANNELS
        invariant
            c <= CHANNELS,
            len == resized@.len(),
            resized@.len() >= 3 * scaled.width * scaled.height,
            canvas_len(target) <= usize::MAX,
            data@.len() == canvas_index(target, c as int, 0, 0),
            forall|i: int|
                0 <= i < data@.len() ==> #[trigger] data@[i] == flat_cell(resized@, scaled, target, i),
        decreases CHANNELS - c,
    {
        let mut y: u32 = 0;
        while y < target.height
            invariant
                c < CHANNELS,
                y <= target.height,
                len == resized@.len(),
                resized@.len() >= 3 * scaled.width * scaled.height,
                canvas_len(target) <= usize::MAX,
                data@.len() == canvas_index(target, c as int, y as int, 0),
                forall|i: int|
                    0 <= i < data@.len() ==> #[trigger] data@[i] == flat_cell(
                        resized@,
                        scaled,
                        target,
                        i,
                    ),
            decreases target.height - y,
        {
            let mut x: u32 = 0;
            while x < target.width
                invariant
                    c < CHANNELS,
                    y < target.height,
                    x <= target.width,
                    len == resized@.len(),
                    resized@.len() >= 3 * scaled.width * scaled.height,
                    canvas_len(target) <= usize::MAX,
                    data@.len() == canvas_index(target, c as int, y as int, x as int),
                    forall|i: int|
                        0 <= i < data@.len() ==> #[trigger] data@[i] == flat_cell(
                            resized@,
                            scaled,
                            target,
                            i,
                        ),
                decreases target.width - x,
            {
                proof {
                    lemma_canvas_index(target, c as int, y as int, x as int);
                }
                let value: u16 = if x < scaled.width && y < scaled.height {
                    proof {
                        lemma_pixel_index(
                            scaled.width as int,
                            scaled.height as int,
                            c as int,
                            y as int,
                            x as int,
                        );
                    }
                    let at = (y as usize * scaled.width as usize + x as usize) * 3 + c as usize;
                    2 * resized[at] as u16
                } else {
                    GRAY
                };
                data.push(value);
                x += 1;
            }
            proof {
                assert(canvas_index(target, c as int, y as int, target.width as int)
                    == canvas_index(target, c as int, y + 1, 0)) by (nonlinear_arith);
            }
            y += 1;
        }
        proof {
            assert(canvas_index(target, c as int, target.height as int, 0) == canvas_index(
                target,
                c + 1,
                0,
                0,
            )) by (nonlinear_arith);
        }
        c += 1;
    }
    proof {
        assert(canvas_index(target, 3, 0, 0) == canvas_len(target)) by (nonlinear_arith);
    }
    Canvas { width: target.width, height: target.height, data }
}

/// Whether a tensor for `target` can be addressed.
fn canvas_fits(target: ImgDimensions) -> (fits: bool)
    ensures
        fits == (canvas_len(target) <= usize::MAX),
{
    assert(CHANNELS * target.height * target.width <= 3 * 0xFFFF_FFFF * 0xFFFF_FFFF)
        by (nonlinear_arith)
        requires
            target.width <= 0xFFFF_FFFF,
            target.height <= 0xFFFF_FFFF,
            CHANNELS == 3,
    ;
    let n: u128 = CHANNELS as u128 * target.height as u128 * target.width as u128;
    n <= usize::MAX as u128
}

/// Whether `len` bytes are enough for an image of `dims` in packed RGB.
fn holds_image(len: usize, dims: ImgDimensions) -> (enough: bool)
    ensures
        enough == (len >= 3 * dims.width * dims.height),
{
    assert(3 * dims.width * dims.height <= 3 * 0xFFFF_FFFF * 0xFFFF_FFFF) by (nonlinear_arith)
        requires
            dims.width <= 0xFFFF_FFFF,
            dims.height <= 0xFFFF_FFFF,
    ;
    let n: u128 = 3 * dims.width as u128 * dims.height as u128;
    len as u128 >= n
}

/// Builds the tensor from what the resizer delivered: the scaled image
/// flush against the top-left corner of a canvas of padding. An error of
/// the resizer, or too few pixels for `scaled`, fails the frame.
pub fn assemble_tensor(
    resized: Option<Vec<u8>>,
    scaled: ImgDimensions,
    target: ImgDimensions,
) -> (out: Result<(Canvas, ImgDimensions), PreprocessError>)
    ensures
        out == Err::<(Canvas, ImgDimensions), PreprocessError>(PreprocessError::CanvasTooLarge)
            <==> canvas_len(target) > usize::MAX,
        out == Err::<(Canvas, ImgDimensions), PreprocessError>(PreprocessError::ResizeFailed)
            <==> canvas_len(target) <= usize::MAX && !(resized matches Some(pixels)
            && pixels@.len() >= 3 * scaled.width * scaled.height),
        out is Err ==> out == Err::<(Canvas, ImgDimensions), PreprocessError>(
            PreprocessError::CanvasTooLarge,
        ) || out == Err::<(Canvas, ImgDimensions), PreprocessError>(PreprocessError::ResizeFailed),
        out matches Ok((canvas, dims)) ==> {
            &&& resized matches Some(pixels)
            &&& dims == scaled
            &&& canvas.width == target.width
            &&& canvas.height == target.height
            &&& is_canvas_of(canvas.data@, pixels@, scaled, target)
        },
{
    if !canvas_fits(target) {
        return Err(PreprocessError::CanvasTooLarge);
    }
    match resized {
        Some(pixels) => {
            if !holds_image(pixels.len(), scaled) {
                return Err(PreprocessError::ResizeFailed);
            }
            let canvas = fill_canvas(&pixels, scaled, target);
            Ok((canvas, scaled))
        },
        None => Err(PreprocessError::ResizeFailed),
    }
}

/// The frame can be preprocessed for `target`: it has an area, three
/// channels and bytes enough, and the tensor can be addressed.
pub open spec fn preprocessable(frame: Frame, target: ImgDimensions) -> bool {
    &&& frame.width > 0
    &&& frame.height > 0
    &&& frame.channels == CHANNELS
    &&& frame.data@.len() >= 3 * frame.width * frame.height
    &&& canvas_len(target) <= usize::MAX
}

/// Scales the frame to fit into `target_dims` without distortion, sampling
/// the nearest neighbour, and lays it into a tensor of padding, flush
/// against the top-left corner. Returns the tensor and the dimensions that
/// the scaled image takes in it. Every frame that can be preprocessed is:
/// the only errors are those of the frame and of the size of the canvas.
pub fn preprocess_image(frame: &Frame, target_dims: ImgDimensions) -> (out: Result<
    (Canvas, ImgDimensions),
    PreprocessError,
>)
    ensures
        out == Err::<(Canvas, ImgDimensions), PreprocessError>(PreprocessError::ZeroArea) <==> (
        frame.width == 0 || frame.height == 0),
        out == Err::<(Canvas, ImgDimensions), PreprocessError>(PreprocessError::NotRgb) <==> (
        frame.width > 0 && frame.height > 0 && frame.channels != CHANNELS),
        out == Err::<(Canvas, ImgDimensions), PreprocessError>(PreprocessError::BufferTooSmall)
            <==> (frame.width > 0 && frame.height > 0 && frame.channels == CHANNELS
            && frame.data@.len() < 3 * frame.width * frame.height),
        out == Err::<(Canvas, ImgDimensions), PreprocessError>(PreprocessError::CanvasTooLarge)
            <==> (frame.width > 0 && frame.height > 0 && frame.channels == CHANNELS
            && frame.data@.len() >= 3 * frame.width * frame.height && canvas_len(target_dims)
            > usize::MAX),
        out is Ok <==> preprocessable(*frame, target_dims),
        out matches Ok((canvas, dims)) ==> {
            &&& dims == letterbox_dims(
                ImgDimensions { width: frame.width, height: frame.height },
                target_dims,
            )
            &&& canvas.width == target_dims.width
            &&& canvas.height == target_dims.height
            &&& is_canvas_of(
                canvas.data@,
                nearest_resized(frame.data@, frame.width, frame.height, dims.width, dims.height),
                dims,
                target_dims,
            )
        },
{
    if frame.width == 0 || frame.height == 0 {
        return Err(PreprocessError::ZeroArea);
    }
    if frame.channels != CHANNELS {
        return Err(PreprocessError::NotRgb);
    }
    let og_dims = ImgDimensions::new(frame.width, frame.height);
    if !holds_image(frame.data.len(), og_dims) {
        return Err(PreprocessError::BufferTooSmall);
    }
    if !canvas_fits(target_dims) {
        return Err(PreprocessError::CanvasTooLarge);
    }
    let ratio = fit_ratio(og_dims, target_dims);
    let scaled_dims = og_dims.scale(ratio);
    proof {
        lemma_letterbox_fits(og_dims, target_dims);
        assert(3 * scaled_dims.width * scaled_dims.height <= 3 * target_dims.height
            * target_dims.width) by (nonlinear_arith)
            requires
                scaled_dims.width <= target_dims.width,
                scaled_dims.height <= target_dims.height,
        ;
    }
    let resized = resize_nearest(
        &frame.data,
        frame.width,
        frame.height,
        scaled_dims.width,
        scaled_dims.height,
    );
    assemble_tensor(resized, scaled_dims, target_dims)
}

} // verus!
