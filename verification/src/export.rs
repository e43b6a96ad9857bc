//! From an atlas to the bytes of a grayscale PNG picture.

use vstd::prelude::*;
use crate::renderer::{RenderData, RendererError};

verus! {

/// The error of the `png` crate's encoder.
#[verifier::external_type_specification]
#[verifier::external_body]
pub struct ExEncodingError(png::EncodingError);

/// The display gamma written to the picture: 1 / 2.2 in units of 1 / 100000.
pub const SOURCE_GAMMA: u32 = 45454;

/// The white point written to the picture, x then y, in units of 1 / 100000.
pub const WHITE_X: u32 = 31270;

pub const WHITE_Y: u32 = 32900;

/// The red primary.
pub const RED_X: u32 = 64000;

pub const RED_Y: u32 = 33000;

/// The green primary.
pub const GREEN_X: u32 = 30000;

pub const GREEN_Y: u32 = 60000;

/// The blue primary.
pub const BLUE_X: u32 = 15000;

pub const BLUE_Y: u32 = 6000;

/// The bytes that the `png` crate's encoder writes for a grayscale picture
/// of 8 bits per pixel with the given size, pixels, gamma and
/// chromaticities, or `None` where it refuses them.
pub uninterp spec fn png_image(
    width: u32,
    height: u32,
    pixels: Seq<u8>,
    gamma: u32,
    white: (u32, u32),
    red: (u32, u32),
    green: (u32, u32),
    blue: (u32, u32),
) -> Option<Seq<u8>>;

/// Encodes a grayscale picture of 8 bits per pixel.
///
/// Trusted: calls `png::Encoder::new` over a byte vector, then
/// `set_color`, `set_depth`, `set_source_gamma` and
/// `set_source_chromaticities`, then `write_header`, and on the writer
/// `write_image_data` and `finish`. What the encoder writes depends on
/// these arguments alone; the contract gives it a name, and says of it only
/// that the encoder refuses a picture without width or height, as its
/// `Writer::init` does. The encoder multiplies the height by the row
/// length plus one, and sizes a buffer a little above that product: the
/// demand keeps twice the product inside the machine word.
#[verifier::external_body]
fn png_encode(
    width: u32,
    height: u32,
    pixels: &Vec<u8>,
    gamma: u32,
    white: (u32, u32),
    red: (u32, u32),
    green: (u32, u32),
    blue: (u32, u32),
) -> (out: Result<Vec<u8>, png::EncodingError>)
    requires
        2 * ((width + 1) * (height + 1)) <= usize::MAX,
    ensures
        out is Ok <==> png_image(width, height, pixels@, gamma, white, red, green, blue) is Some,
        out matches Ok(bytes) ==> png_image(width, height, pixels@, gamma, white, red, green, blue)
            == Some(bytes@),
        width == 0 || height == 0 ==> out is Err,
{
    let pair = |p: (u32, u32)| (png::ScaledFloat::from_scaled(p.0), png::ScaledFloat::from_scaled(p.1));
    let mut out = Vec::new();
    let mut encoder = png::Encoder::new(&mut out, width, height);
    encoder.set_color(png::ColorType::Grayscale);
    encoder.set_depth(png::BitDepth::Eight);
    encoder.set_source_gamma(png::ScaledFloat::from_scaled(gamma));
    encoder.set_source_chromaticities(
        png::SourceChromaticities { white: pair(white), red: pair(red), green: pair(green), blue: pair(blue) },
    );
    let mut writer = encoder.write_header()?;
    writer.write_image_data(pixels)?;
    writer.finish()?;
    Ok(out)
}

/// The atlas is too large for a picture: a side does not fit 32 bits, or
/// twice the size of the rows with their filter bytes does not fit the
/// machine word.
pub open spec fn too_large_for_picture(width: nat, height: nat) -> bool {
    ||| width > u32::MAX
    ||| height > u32::MAX
    ||| 2 * ((width + 1) * (height + 1)) > usize::MAX
}

/// What exporting gives for what the encoder gave: its bytes, or the
/// creation error where it failed.
pub open spec fn export_of(encoded: Option<Seq<u8>>, out: Result<Vec<u8>, RendererError>) -> bool {
    match encoded {
        Some(bytes) => out matches Ok(written) && written@ == bytes,
        None => out == Err::<Vec<u8>, RendererError>(RendererError::CreationError),
    }
}

/// The bytes that the encoder gave, or the creation error where it failed.
pub fn export_result(encoded: Result<Vec<u8>, png::EncodingError>) -> (out: Result<
    Vec<u8>,
    RendererError,
>)
    ensures
        encoded matches Ok(bytes) ==> out == Ok::<Vec<u8>, RendererError>(bytes),
        encoded is Err ==> out == Err::<Vec<u8>, RendererError>(RendererError::CreationError),
{
    match encoded {
        Ok(bytes) => Ok(bytes),
        Err(_) => Err(RendererError::CreationError),
    }
}

/// The atlas as a grayscale PNG picture of 8 bits per pixel, with the
/// display gamma and chromaticities of this module.
///
/// An atlas that is too large for a picture gives `TooLarge`; otherwise
/// the result is what the encoder gives, and `CreationError` where it
/// refuses, as it does for an atlas without width or height.
pub fn encode_image(render_data: &RenderData) -> (out: Result<Vec<u8>, RendererError>)
    ensures
        too_large_for_picture(render_data@.width, render_data@.height) ==> out == Err::<
            Vec<u8>,
            RendererError,
        >(RendererError::TooLarge),
        !too_large_for_picture(render_data@.width, render_data@.height) ==> export_of(
            png_image(
                render_data@.width as u32,
                render_data@.height as u32,
                render_data@.pixels,
                SOURCE_GAMMA,
                (WHITE_X, WHITE_Y),
                (RED_X, RED_Y),
                (GREEN_X, GREEN_Y),
                (BLUE_X, BLUE_Y),
            ),
            out,
        ),
        !too_large_for_picture(render_data@.width, render_data@.height) && (render_data@.width == 0
            || render_data@.height == 0) ==> out == Err::<Vec<u8>, RendererError>(
            RendererError::CreationError,
        ),
{
    let width = render_data.width();
    let height = render_data.height();
    if width > 0xFFFF_FFFF || height > 0xFFFF_FFFF {
        return Err(RendererError::TooLarge);
    }
    assert((width + 1) * (height + 1) <= 0x1_0000_0000 * 0x1_0000_0000) by (nonlinear_arith)
        requires
            0 <= width <= 0xFFFF_FFFF,
            0 <= height <= 0xFFFF_FFFF,
    ;
    let rows: u128 = 2 * ((width as u128 + 1) * (height as u128 + 1));
    if rows > usize::MAX as u128 {
        return Err(RendererError::TooLarge);
    }
    let encoded = png_encode(
        width as u32,
        height as u32,
        render_data.pixels(),
        SOURCE_GAMMA,
        (WHITE_X, WHITE_Y),
        (RED_X, RED_Y),
        (GREEN_X, GREEN_Y),
        (BLUE_X, BLUE_Y),
    );
    export_result(encoded)
}

} // verus!
