//! Conversion of a packed alpha-luma-chroma frame to alpha-RGB.

use vstd::prelude::*;

verus! {

/// Bytes per pixel, in the packed frame and in the converted one.
pub const PIXEL_SIZE: usize = 4;

/// What is known of the alpha-RGB frame `rgba` that a packed frame `packed`
/// of `pixels` pixels converts to: it is as long as `packed`, the fourth
/// byte of each pixel is the pixel's alpha, and a pixel whose alpha is zero
/// is four zero bytes.
pub open spec fn is_conversion_of(rgba: Seq<u8>, packed: Seq<u8>, pixels: int) -> bool {
    &&& rgba.len() == packed.len()
    &&& forall|p: int| 0 <= p < pixels ==> #[trigger] rgba[4 * p + 3] == packed[4 * p]
    &&& forall|p: int, c: int|
        0 <= p < pixels && 0 <= c < 3 && packed[4 * p] == 0 ==> #[trigger] rgba[4 * p + c] == 0
}

/// Calls `yuv::ayuv_to_rgba` on a frame of `height` rows of `stride` bytes,
/// each row `width` pixels of four bytes (alpha, luma, blue and red chroma
/// difference), with the BT.709 matrix, full range and colours multiplied
/// by alpha, into a fresh buffer of the same length.
///
/// Trusted, from the converter's source: a frame of this shape is refused
/// exactly when it has no pixels; the result is as long as the input; the
/// fourth byte of each converted pixel is the alpha byte of the packed one;
/// a pixel whose alpha is zero has all three colour bytes zero. Of the
/// colour bytes of other pixels nothing is stated: which arithmetic computes
/// them depends on the machine's vector unit.
#[verifier::external_body]
pub(crate) fn ayuv_to_rgba(
    packed: &[u8],
    stride: u32,
    width: u16,
    height: u16,
) -> (result: Result<Vec<u8>, yuv::YuvError>)
    requires
        stride == 4 * width,
        packed@.len() == stride * height,
        packed@.len() <= isize::MAX,
    ensures
        result is Ok <==> (width > 0 && height > 0),
        result is Ok ==> is_conversion_of(result->Ok_0@, packed@, width * height),
{
    let (width, height) = (u32::from(width), u32::from(height));
    let image = yuv::YuvPackedImage { yuy: packed, yuy_stride: stride, width, height };
    let mut rgba = vec![0u8; packed.len()];
    let (range, matrix) = (yuv::YuvRange::Full, yuv::YuvStandardMatrix::Bt709);
    yuv::ayuv_to_rgba(&image, &mut rgba, stride, range, matrix, true)?;
    Ok(rgba)
}

} // verus!
