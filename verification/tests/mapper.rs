use sim_automation::mapper::{
    to_screen, Chrome, DeviceFrameSize, DevicePoint, MapError, ScreenPoint, WindowGeometry,
    DEFAULT_TOP_INSET,
};

fn window() -> WindowGeometry {
    WindowGeometry { x: 100, y: 50, width: 400, height: 866 }
}

fn phone() -> DeviceFrameSize {
    DeviceFrameSize { width: 1206, height: 2622 }
}

fn chrome() -> Chrome {
    Chrome { top_inset: 44 }
}

#[test]
fn default_inset_is_the_toolbar_height() {
    assert_eq!(DEFAULT_TOP_INSET, 44);
}

#[test]
fn frame_center_lands_on_content_center() {
    // scale = 822 / 2622; drawn width = 378.08..; the content rectangle is
    // centred at x = 100 + 200, y = 50 + 44 + 411.
    let p = to_screen(DevicePoint { x: 603, y: 1311 }, &window(), &phone(), &chrome());
    assert_eq!(p, Ok(ScreenPoint { x: 300, y: 505 }));
}

#[test]
fn frame_center_is_within_two_units_of_content_center() {
    let p = to_screen(DevicePoint { x: 603, y: 1311 }, &window(), &phone(), &chrome()).unwrap();
    assert!((p.x - 300).abs() <= 2);
    assert!((p.y - 505).abs() <= 2);
}

#[test]
fn origin_maps_to_the_corner_of_the_drawn_frame() {
    // offset_x = (400 - 1206 * 822 / 2622) / 2 = 10.95.., cut to 10.
    let p = to_screen(DevicePoint { x: 0, y: 0 }, &window(), &phone(), &chrome());
    assert_eq!(p, Ok(ScreenPoint { x: 110, y: 94 }));
}

#[test]
fn origin_lies_inside_the_window_below_the_chrome() {
    let frames = [
        DeviceFrameSize { width: 1206, height: 2622 },
        DeviceFrameSize { width: 2622, height: 1206 },
        DeviceFrameSize { width: 1, height: 1 },
        DeviceFrameSize { width: 4000, height: 3 },
    ];
    let windows = [
        WindowGeometry { x: 100, y: 50, width: 400, height: 866 },
        WindowGeometry { x: -1500, y: -900, width: 333, height: 45 },
        WindowGeometry { x: 0, y: 0, width: 1, height: 2000 },
    ];
    for g in windows.iter() {
        for f in frames.iter() {
            let p = to_screen(DevicePoint { x: 0, y: 0 }, g, f, &chrome()).unwrap();
            assert!(i64::from(g.x) <= p.x && p.x <= i64::from(g.x) + i64::from(g.width));
            assert!(i64::from(g.y) + 44 <= p.y && p.y <= i64::from(g.y) + i64::from(g.height));
        }
    }
}

#[test]
fn wide_frame_is_limited_by_the_window_width() {
    // scale = 400 / 800 = 1/2; drawn height 100; the content area is 822 high.
    let f = DeviceFrameSize { width: 800, height: 200 };
    let p = to_screen(DevicePoint { x: 0, y: 0 }, &window(), &f, &chrome());
    assert_eq!(p, Ok(ScreenPoint { x: 100, y: 50 + 44 + 361 }));
    let q = to_screen(DevicePoint { x: 800, y: 200 }, &window(), &f, &chrome());
    assert_eq!(q, Ok(ScreenPoint { x: 500, y: 50 + 44 + 461 }));
}

#[test]
fn one_scale_serves_both_axes() {
    // Moving by the same number of device pixels moves by the same number of
    // screen units on either axis.
    let f = DeviceFrameSize { width: 800, height: 200 };
    let a = to_screen(DevicePoint { x: 0, y: 0 }, &window(), &f, &chrome()).unwrap();
    let b = to_screen(DevicePoint { x: 100, y: 100 }, &window(), &f, &chrome()).unwrap();
    assert_eq!(b.x - a.x, 50);
    assert_eq!(b.y - a.y, 50);
}

#[test]
fn zero_frame_is_invalid() {
    let p = DevicePoint { x: 1, y: 1 };
    let no_width = DeviceFrameSize { width: 0, height: 10 };
    let no_height = DeviceFrameSize { width: 10, height: 0 };
    let nothing = DeviceFrameSize { width: 0, height: 0 };
    assert_eq!(to_screen(p, &window(), &no_width, &chrome()), Err(MapError::InvalidFrameSize));
    assert_eq!(to_screen(p, &window(), &no_height, &chrome()), Err(MapError::InvalidFrameSize));
    assert_eq!(to_screen(p, &window(), &nothing, &chrome()), Err(MapError::InvalidFrameSize));
}

#[test]
fn zero_frame_is_reported_before_degenerate_geometry() {
    let g = WindowGeometry { x: 0, y: 0, width: 0, height: 0 };
    let f = DeviceFrameSize { width: 0, height: 10 };
    assert_eq!(to_screen(DevicePoint { x: 0, y: 0 }, &g, &f, &chrome()), Err(MapError::InvalidFrameSize));
}

#[test]
fn window_without_content_area_is_degenerate() {
    let p = DevicePoint { x: 0, y: 0 };
    let flat = WindowGeometry { x: 0, y: 0, width: 400, height: 44 };
    let low = WindowGeometry { x: 0, y: 0, width: 400, height: 40 };
    let thin = WindowGeometry { x: 0, y: 0, width: 0, height: 866 };
    let negative = WindowGeometry { x: 0, y: 0, width: -5, height: 866 };
    assert_eq!(to_screen(p, &flat, &phone(), &chrome()), Err(MapError::DegenerateGeometry));
    assert_eq!(to_screen(p, &low, &phone(), &chrome()), Err(MapError::DegenerateGeometry));
    assert_eq!(to_screen(p, &thin, &phone(), &chrome()), Err(MapError::DegenerateGeometry));
    assert_eq!(to_screen(p, &negative, &phone(), &chrome()), Err(MapError::DegenerateGeometry));
}

#[test]
fn points_outside_the_frame_are_not_clamped() {
    let f = DeviceFrameSize { width: 800, height: 200 };
    let p = to_screen(DevicePoint { x: -100, y: 1000 }, &window(), &f, &chrome());
    assert_eq!(p, Ok(ScreenPoint { x: 50, y: 50 + 44 + 361 + 500 }));
}

#[test]
fn fractions_are_cut_toward_zero() {
    // scale = 1/2 on a window at the origin without chrome.
    let g = WindowGeometry { x: 0, y: 0, width: 10, height: 10 };
    let f = DeviceFrameSize { width: 20, height: 20 };
    let c = Chrome { top_inset: 0 };
    assert_eq!(to_screen(DevicePoint { x: 3, y: 5 }, &g, &f, &c), Ok(ScreenPoint { x: 1, y: 2 }));
    assert_eq!(to_screen(DevicePoint { x: -3, y: -5 }, &g, &f, &c), Ok(ScreenPoint { x: -1, y: -2 }));
    assert_eq!(to_screen(DevicePoint { x: -1, y: 1 }, &g, &f, &c), Ok(ScreenPoint { x: 0, y: 0 }));
}

#[test]
fn extreme_inputs_do_not_overflow() {
    let g = WindowGeometry { x: i32::MAX, y: i32::MIN, width: i32::MAX, height: i32::MAX };
    let f = DeviceFrameSize { width: 1, height: 1 };
    let c = Chrome { top_inset: 0 };
    let p = to_screen(DevicePoint { x: i32::MAX, y: i32::MIN }, &g, &f, &c).unwrap();
    let scale = i64::from(i32::MAX);
    assert_eq!(p.x, i64::from(i32::MAX) + scale * i64::from(i32::MAX));
    assert_eq!(p.y, i64::from(i32::MIN) + scale * i64::from(i32::MIN));
}
