//! PNG encoding of a pixel buffer. The encoder is `lodepng`; this module
//! declares its error type, names the bytes it produces, and makes the call.

use vstd::prelude::*;
use crate::color::ColorRgb;
use crate::image::{grid_bytes, ImageBuffer};
use crate::render::RenderError;

verus! {

/// The most scanline bytes that are handed to the encoder: 2^30. The encoder
/// writes the compressed image into a single chunk, which must stay under
/// 2^31 bytes, and its compressor may produce about one seventh more than it
/// is given.
pub const ENCODER_LIMIT: usize = 1_073_741_824;

/// `lodepng::Error`, an error code of the encoder.
#[verifier::external_type_specification]
#[verifier::external_body]
pub struct ExPngError(lodepng::Error);

/// What `lodepng::encode_memory` answers for 8-bit RGB pixels (three bytes
/// per pixel, row by row) of the given width and height: the PNG file, or
/// `None` where it refuses them. Running out of memory is left aside.
pub uninterp spec fn png_of(pixels: Seq<u8>, width: nat, height: nat) -> Option<Seq<u8>>;

/// An image of this size is small enough for the encoder: its scanlines, one
/// filter byte and three bytes per pixel for each row, come to no more than
/// `ENCODER_LIMIT` bytes.
pub open spec fn spec_fits_encoder(width: usize, height: usize) -> bool {
    height * (3 * width + 1) <= ENCODER_LIMIT
}

/// Whether an image of this size is small enough for the encoder.
#[verifier::when_used_as_spec(spec_fits_encoder)]
pub fn fits_encoder(width: usize, height: usize) -> (ok: bool)
    ensures
        ok == spec_fits_encoder(width, height),
{
    if height == 0 {
        assert(height * (3 * width + 1) == 0) by (nonlinear_arith)
            requires
                height == 0,
        ;
        return true;
    }
    if width > ENCODER_LIMIT || height > ENCODER_LIMIT {
        assert(height * (3 * width + 1) > 1_073_741_824) by (nonlinear_arith)
            requires
                height >= 1,
                width >= 0,
                width > 1_073_741_824 || height > 1_073_741_824,
        ;
        return false;
    }
    let line: u64 = 3 * (width as u64) + 1;
    let rows: u64 = height as u64;
    assert(rows * line <= 1_073_741_824 * 3_221_225_473) by (nonlinear_arith)
        requires
            rows <= 1_073_741_824,
            line <= 3_221_225_473,
    ;
    rows * line <= ENCODER_LIMIT as u64
}

/// What encoding an image gives: the encoder's answer where the image is
/// small enough for it, and nothing where it is not.
pub open spec fn encoded(pixels: Seq<u8>, width: usize, height: usize) -> Option<Seq<u8>> {
    if spec_fits_encoder(width, height) {
        png_of(pixels, width as nat, height as nat)
    } else {
        None
    }
}

/// Calls `lodepng::encode_memory` for 8-bit RGB input. The contract claims
/// that a width or height of zero is refused, and that the answer, bytes or
/// refusal, is a function of the pixels and the size. Two inputs are left
/// out: a byte count other than three per pixel, which the encoder asserts
/// against, and an image so large that the compressed data could reach the
/// 2^31 bytes that the encoder asserts a chunk to stay under.
#[verifier::external_body]
fn encode_rgb(pixels: &Vec<u8>, width: usize, height: usize) -> (out: Result<
    Vec<u8>,
    lodepng::Error,
>)
    requires
        pixels.len() == 3 * width * height,
        spec_fits_encoder(width, height),
    ensures
        (width == 0 || height == 0) ==> out is Err,
        match out {
            Ok(png) => png_of(pixels@, width as nat, height as nat) == Some(png@),
            Err(_) => png_of(pixels@, width as nat, height as nat) is None,
        },
{
    lodepng::encode_memory(pixels.as_slice(), width, height, lodepng::ColorType::RGB, 8)
}

/// What the encoder's answer means to the caller: the bytes as they are, and
/// any error of the encoder as a codec failure.
pub fn codec_result(encoded: Result<Vec<u8>, lodepng::Error>) -> (out: Result<Vec<u8>, RenderError>)
    ensures
        match encoded {
            Ok(png) => out == Ok::<Vec<u8>, RenderError>(png),
            Err(_) => out == Err::<Vec<u8>, RenderError>(RenderError::CodecFailure),
        },
{
    match encoded {
        Ok(png) => Ok(png),
        Err(_) => Err(RenderError::CodecFailure),
    }
}

impl ImageBuffer<ColorRgb> {
    /// Encodes the buffer as a PNG file of 8-bit RGB: the pixels flattened
    /// row by row and handed to the encoder. The result is the encoder's
    /// file exactly when the image is small enough for the encoder and the
    /// encoder takes it. A buffer without pixels is never taken. Every
    /// failure is a codec failure.
    pub fn encode(&self) -> (out: Result<Vec<u8>, RenderError>)
        requires
            self.wf(),
        ensures
            match encoded(grid_bytes(self@), self.spec_width(), self.spec_height()) {
                Some(bytes) => out matches Ok(png) && png@ == bytes,
                None => out == Err::<Vec<u8>, RenderError>(RenderError::CodecFailure),
            },
            (self.spec_width() == 0 || self.spec_height() == 0) ==> out is Err,
    {
        if !fits_encoder(self.width(), self.height()) {
            return Err(RenderError::CodecFailure);
        }
        let pixels = self.rgb_bytes();
        codec_result(encode_rgb(&pixels, self.width(), self.height()))
    }
}

/// Encoding is deterministic: two buffers with the same pixels encode alike.
/// Both are refused, or both give the same bytes.
pub proof fn lemma_encoding_deterministic(a: ImageBuffer<ColorRgb>, b: ImageBuffer<ColorRgb>)
    requires
        a.wf(),
        b.wf(),
        a@ == b@,
        a.spec_width() == b.spec_width(),
    ensures
        encoded(grid_bytes(a@), a.spec_width(), a.spec_height()) == encoded(
            grid_bytes(b@),
            b.spec_width(),
            b.spec_height(),
        ),
{
}

} // verus!
