use sim_automation::mapper::WindowGeometry;
use sim_automation::window::{parse_window_geometry, HostAutomationError};

#[test]
fn record_of_four_numbers_is_read() {
    assert_eq!(
        parse_window_geometry("100,50,400,866"),
        Ok(WindowGeometry { x: 100, y: 50, width: 400, height: 866 })
    );
}

#[test]
fn white_space_around_record_and_numbers_is_ignored() {
    assert_eq!(
        parse_window_geometry("  -12, 7 ,\t400 , 866\n"),
        Ok(WindowGeometry { x: -12, y: 7, width: 400, height: 866 })
    );
}

#[test]
fn record_with_too_few_numbers_is_malformed() {
    assert_eq!(parse_window_geometry("100,50,400"), Err(HostAutomationError::MalformedGeometry));
    assert_eq!(parse_window_geometry(""), Err(HostAutomationError::MalformedGeometry));
    assert_eq!(parse_window_geometry("a,b,c,d"), Err(HostAutomationError::MalformedGeometry));
}

#[test]
fn record_with_too_many_numbers_is_malformed() {
    assert_eq!(parse_window_geometry("1,2,3,4,5"), Err(HostAutomationError::MalformedGeometry));
}

#[test]
fn parts_that_are_no_numbers_are_passed_over() {
    assert_eq!(
        parse_window_geometry("1,x,2,3,,4"),
        Ok(WindowGeometry { x: 1, y: 2, width: 3, height: 4 })
    );
    assert_eq!(parse_window_geometry("1,2,3,4.5"), Err(HostAutomationError::MalformedGeometry));
}
