//! Coordinate mapping and accessibility-snapshot resolution for driving an
//! on-screen device simulator through its host window.
//!
//! The two tasks at the centre of the crate are
//!
//! * mapping a point of the device's pixel space to the point of the host
//!   screen where it is drawn ([`mapper`], with the window record read by
//!   [`window`] and the frame size resolved by [`frame`]), and
//! * reading a dump of the host window's accessibility tree into typed
//!   elements ([`tree`]) and resolving a text query to the centre of the
//!   element that shows it ([`locator`]).
//!
//! Around them stand the questions asked of what the device manager prints:
//! device listings ([`devices`], over the JSON documents of [`json`]),
//! application listings ([`apps`]) and the delivery of keys ([`keys`]). The
//! modules [`text`], [`number`], [`order`] and [`search`] hold the text and
//! sequence primitives that the others are built from.
//!
//! Every function is verified against the contract in its signature. Host
//! screen units are whole numbers; the mapper computes exactly over the
//! rationals and cuts its result toward zero. Calls into other crates are
//! confined to a few wrappers whose contracts are assumed, not proved; each
//! says so where it is declared.

pub mod apps;
pub mod devices;
pub mod frame;
pub mod json;
pub mod keys;
pub mod locator;
pub mod mapper;
pub mod number;
pub mod order;
pub mod search;
pub mod text;
pub mod tree;
pub mod window;

pub use apps::{list_apps, running_apps, PatternError};
pub use devices::{
    get_simulator_udid, get_system_info, list_devices, DeviceError, Simulator,
};
pub use frame::{frame_size, sim_to_screen_coords, CoordinateError, FrameError};
pub use keys::{key_action, swipe_hold_millis, KeyAction};
pub use locator::{find, find_element};
pub use mapper::{
    to_screen, Chrome, DeviceFrameSize, DevicePoint, MapError, ScreenPoint, WindowGeometry,
    DEFAULT_TOP_INSET,
};
pub use tree::{parse_tree, UiElement};
pub use window::{parse_window_geometry, HostAutomationError};
