use sim_automation::frame::{frame_size, sim_to_screen_coords, CoordinateError, FrameError};
use sim_automation::mapper::{Chrome, DeviceFrameSize, MapError, ScreenPoint, WindowGeometry};

fn png(width: u32, height: u32) -> Vec<u8> {
    let image = image::DynamicImage::ImageRgb8(image::RgbImage::new(width, height));
    let mut bytes = std::io::Cursor::new(Vec::new());
    image.write_to(&mut bytes, image::ImageFormat::Png).unwrap();
    bytes.into_inner()
}

#[test]
fn frame_size_is_the_size_of_the_image() {
    assert_eq!(frame_size(&png(12, 26)), Ok(DeviceFrameSize { width: 12, height: 26 }));
    assert_eq!(frame_size(&png(1, 1)), Ok(DeviceFrameSize { width: 1, height: 1 }));
    assert_eq!(frame_size(&png(603, 1311)), Ok(DeviceFrameSize { width: 603, height: 1311 }));
}

#[test]
fn bytes_that_are_no_image_are_a_decode_error() {
    assert_eq!(frame_size(b"not an image"), Err(FrameError::Decode));
    assert_eq!(frame_size(&[]), Err(FrameError::Decode));
}

#[test]
fn image_of_another_format_is_a_decode_error() {
    // The first bytes of a GIF and of a JPEG file.
    assert_eq!(frame_size(b"GIF89a\x01\x00\x01\x00\x00\x00\x00;"), Err(FrameError::Decode));
    assert_eq!(frame_size(&[0xff, 0xd8, 0xff, 0xe0, 0, 16, b'J', b'F', b'I', b'F', 0]), Err(FrameError::Decode));
}

#[test]
fn truncated_image_is_a_decode_error() {
    let mut bytes = png(12, 26);
    bytes.truncate(40);
    assert_eq!(frame_size(&bytes), Err(FrameError::Decode));
}

#[test]
fn device_point_is_mapped_with_the_size_of_the_screenshot() {
    let g = WindowGeometry { x: 100, y: 50, width: 400, height: 866 };
    let c = Chrome { top_inset: 44 };
    // scale = 822 / 1311; the frame is drawn 378.08.. wide, 10.95.. from the left.
    let shot = png(603, 1311);
    assert_eq!(sim_to_screen_coords(0, 0, &g, &shot, &c), Ok(ScreenPoint { x: 110, y: 94 }));
    assert_eq!(sim_to_screen_coords(603, 1311, &g, &shot, &c), Ok(ScreenPoint { x: 489, y: 916 }));
}

#[test]
fn undecodable_screenshot_stops_the_mapping() {
    let g = WindowGeometry { x: 100, y: 50, width: 400, height: 866 };
    let c = Chrome { top_inset: 44 };
    assert_eq!(
        sim_to_screen_coords(1, 1, &g, b"garbage", &c),
        Err(CoordinateError::Frame(FrameError::Decode))
    );
}

#[test]
fn degenerate_window_stops_the_mapping() {
    let g = WindowGeometry { x: 100, y: 50, width: 400, height: 30 };
    let c = Chrome { top_inset: 44 };
    assert_eq!(
        sim_to_screen_coords(1, 1, &g, &png(4, 4), &c),
        Err(CoordinateError::Mapping(MapError::DegenerateGeometry))
    );
}
