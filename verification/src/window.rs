//! The window geometry record: four integers joined by commas, in the order
//! x, y, width, height, as the host window query prints them.

use vstd::prelude::*;
use crate::mapper::WindowGeometry;
use crate::number::{numbers, numbers_in};
use crate::text::{chars_of, trim, trimmed};

verus! {

/// The character between the numbers of a record.
pub const RECORD_SEPARATOR: char = ',';

/// Failure of a query to the host window system.
#[derive(Clone, Copy, Debug, PartialEq, Eq, Structural)]
pub enum HostAutomationError {
    /// The window record does not hold exactly four integers.
    MalformedGeometry,
}

/// The geometry that `record` writes, if it is well formed: surrounding white
/// space set aside, exactly four of its comma-separated parts are integers.
/// Parts that are no integers are passed over.
pub open spec fn window_geometry_spec(record: Seq<char>) -> Option<WindowGeometry> {
    let n = numbers_in(trimmed(record), RECORD_SEPARATOR);
    if n.len() == 4 {
        Some(WindowGeometry { x: n[0], y: n[1], width: n[2], height: n[3] })
    } else {
        None
    }
}

/// Reads the record that the host window query printed.
pub fn parse_window_geometry(record: &str) -> (r: Result<WindowGeometry, HostAutomationError>)
    ensures
        match r {
            Ok(g) => window_geometry_spec(record@) == Some(g),
            Err(e) => e == HostAutomationError::MalformedGeometry && window_geometry_spec(
                record@,
            ) is None,
        },
{
    let chars: Vec<char> = chars_of(record);
    let parts: Vec<i32> = numbers(trim(chars.as_slice()), RECORD_SEPARATOR);
    if parts.len() != 4 {
        return Err(HostAutomationError::MalformedGeometry);
    }
    Ok(WindowGeometry { x: parts[0], y: parts[1], width: parts[2], height: parts[3] })
}

} // verus!
