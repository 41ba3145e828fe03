//! The device frame resolver: the pixel dimensions of the device's rendering
//! surface, taken from a captured still image. The capture service writes
//! PNG images, and as such they are decoded.

use vstd::prelude::*;
use crate::mapper::{
    to_screen, to_screen_spec, Chrome, DeviceFrameSize, DevicePoint, MapError, ScreenPoint,
    WindowGeometry,
};

verus! {

/// The error type of the `image` crate, carried as an opaque value.
#[verifier::external_type_specification]
#[verifier::external_body]
pub struct ExImageError(image::ImageError);

/// Width and height, in pixels, of the PNG image that `data` encodes, or
/// `None` where `data` is not a PNG image that the decoder accepts.
pub uninterp spec fn decoded_dimensions(data: Seq<u8>) -> Option<(u32, u32)>;

/// `image::load_from_memory_with_format`, asked for the PNG format, decodes
/// the bytes with the built-in PNG decoder; `width` and `height` of the
/// decoded image give its dimensions. The contract claims only that the
/// outcome is a function of the bytes.
#[verifier::external_body]
fn decode_dimensions(data: &[u8]) -> (r: Result<(u32, u32), image::ImageError>)
    ensures
        match r {
            Ok(d) => decoded_dimensions(data@) == Some(d),
            Err(_) => decoded_dimensions(data@) is None,
        },
{
    image::load_from_memory_with_format(data, image::ImageFormat::Png)
        .map(|img| (img.width(), img.height()))
}

/// Failure to resolve the device frame.
#[derive(Clone, Copy, Debug, PartialEq, Eq, Structural)]
pub enum FrameError {
    /// The captured bytes are not a decodable image.
    Decode,
}

/// What `frame_size` returns for the bytes `data`.
pub open spec fn frame_size_spec(data: Seq<u8>) -> Result<DeviceFrameSize, FrameError> {
    match decoded_dimensions(data) {
        Some(d) => Ok(DeviceFrameSize { width: d.0, height: d.1 }),
        None => Err(FrameError::Decode),
    }
}

/// The frame size of the device whose screen `screenshot` shows: the pixel
/// dimensions of the image.
pub fn frame_size(screenshot: &[u8]) -> (r: Result<DeviceFrameSize, FrameError>)
    ensures
        r == frame_size_spec(screenshot@),
{
    match decode_dimensions(screenshot) {
        Ok(d) => Ok(DeviceFrameSize { width: d.0, height: d.1 }),
        Err(_) => Err(FrameError::Decode),
    }
}

/// Why a device point could not be placed on the screen.
#[derive(Clone, Copy, Debug, PartialEq, Eq, Structural)]
pub enum CoordinateError {
    /// The frame size could not be resolved.
    Frame(FrameError),
    /// The frame size or the window geometry does not allow the mapping.
    Mapping(MapError),
}

/// What `sim_to_screen_coords` returns.
pub open spec fn sim_to_screen_spec(
    p: DevicePoint,
    g: WindowGeometry,
    screenshot: Seq<u8>,
    c: Chrome,
) -> Result<(int, int), CoordinateError> {
    match frame_size_spec(screenshot) {
        Err(e) => Err(CoordinateError::Frame(e)),
        Ok(f) => match to_screen_spec(p, g, f, c) {
            Ok(s) => Ok(s),
            Err(e) => Err(CoordinateError::Mapping(e)),
        },
    }
}

/// Maps the device point `(sim_x, sim_y)` to the host screen, for a window
/// of the given geometry that shows the device whose screen `screenshot`
/// captures: resolves the frame size from the image and maps the point with
/// it.
pub fn sim_to_screen_coords(
    sim_x: i32,
    sim_y: i32,
    geometry: &WindowGeometry,
    screenshot: &[u8],
    chrome: &Chrome,
) -> (r: Result<ScreenPoint, CoordinateError>)
    ensures
        match r {
            Ok(s) => sim_to_screen_spec(
                DevicePoint { x: sim_x, y: sim_y },
                *geometry,
                screenshot@,
                *chrome,
            ) == Ok::<(int, int), CoordinateError>(s@),
            Err(e) => sim_to_screen_spec(
                DevicePoint { x: sim_x, y: sim_y },
                *geometry,
                screenshot@,
                *chrome,
            ) == Err::<(int, int), CoordinateError>(e),
        },
{
    let frame: DeviceFrameSize = match frame_size(screenshot) {
        Ok(f) => f,
        Err(e) => {
            return Err(CoordinateError::Frame(e));
        },
    };
    match to_screen(DevicePoint { x: sim_x, y: sim_y }, geometry, &frame, chrome) {
        Ok(s) => Ok(s),
        Err(e) => Err(CoordinateError::Mapping(e)),
    }
}

} // verus!
