use sim_automation::devices::{
    devices, find_udid, get_simulator_udid, get_system_info, list_devices, simulators,
    system_info, DeviceError, Simulator,
};
use sim_automation::json::{parse_json, InvalidJson, Json};

const LISTING: &str = r#"{
  "devices": {
    "com.apple.CoreSimulator.SimRuntime.iOS-17-0": [
      {"name": "iPhone 15", "udid": "AAAA-1111", "state": "Shutdown", "isAvailable": true},
      {"name": "iPhone 15 Pro", "udid": "BBBB-2222", "state": "Booted", "isAvailable": true},
      {"name": "iPad Air", "udid": "CCCC-3333", "state": "Shutdown", "isAvailable": false}
    ],
    "com.apple.CoreSimulator.SimRuntime.iOS-16-4": [
      {"name": "iPhone 14", "udid": "DDDD-4444", "state": "Booted", "isAvailable": true},
      {"name": "iPhone 15", "udid": "EEEE-5555", "state": "Shutdown", "isAvailable": true},
      {"name": "Ghost", "state": "Shutdown"},
      {"udid": "FFFF-6666", "isAvailable": true}
    ],
    "com.apple.CoreSimulator.SimRuntime.watchOS-10-0": "none"
  }
}"#;

fn record(s: &Simulator) -> (String, String, String, String) {
    (s.name.clone(), s.udid.clone(), s.state.clone(), s.runtime.clone())
}

fn quad(name: &str, udid: &str, state: &str, runtime: &str) -> (String, String, String, String) {
    (name.to_string(), udid.to_string(), state.to_string(), runtime.to_string())
}

#[test]
fn test_get_simulator_udid_booted() {
    let result = get_simulator_udid(None, &[]);
    assert!(result.is_ok());
    assert_eq!(result.unwrap(), "booted");
}

#[test]
fn udid_without_name_ignores_the_listing() {
    assert_eq!(get_simulator_udid(None, b"not json").unwrap(), "booted");
    assert_eq!(get_simulator_udid(None, LISTING.as_bytes()).unwrap(), "booted");
}

#[test]
fn udid_of_a_named_device_is_looked_up() {
    assert_eq!(get_simulator_udid(Some("iPhone 15 Pro"), LISTING.as_bytes()).unwrap(), "BBBB-2222");
    assert_eq!(get_simulator_udid(Some("iPad Air"), LISTING.as_bytes()).unwrap(), "CCCC-3333");
}

#[test]
fn first_device_of_a_name_wins() {
    // Runtimes are visited in the order of their names: iOS-16-4 before iOS-17-0.
    assert_eq!(get_simulator_udid(Some("iPhone 15"), LISTING.as_bytes()).unwrap(), "EEEE-5555");
}

#[test]
fn unknown_name_is_device_not_found() {
    match get_simulator_udid(Some("Pixel 8"), LISTING.as_bytes()) {
        Err(DeviceError::DeviceNotFound(name)) => assert_eq!(name, "Pixel 8"),
        other => panic!("unexpected: {:?}", other),
    }
}

#[test]
fn device_without_identifier_is_not_found() {
    assert!(matches!(
        get_simulator_udid(Some("Ghost"), LISTING.as_bytes()),
        Err(DeviceError::DeviceNotFound(_))
    ));
}

#[test]
fn name_must_match_exactly() {
    assert!(matches!(
        get_simulator_udid(Some("iphone 15"), LISTING.as_bytes()),
        Err(DeviceError::DeviceNotFound(_))
    ));
    assert!(matches!(
        get_simulator_udid(Some("iPhone"), LISTING.as_bytes()),
        Err(DeviceError::DeviceNotFound(_))
    ));
}

#[test]
fn unreadable_listing_is_an_error() {
    assert!(matches!(
        get_simulator_udid(Some("iPhone 15"), b"{ not json"),
        Err(DeviceError::InvalidListing)
    ));
    assert!(matches!(list_devices(b""), Err(DeviceError::InvalidListing)));
    assert!(matches!(get_system_info(None, b"[1,"), Err(DeviceError::InvalidListing)));
}

#[test]
fn listing_without_devices_holds_none() {
    assert!(list_devices(b"{}").unwrap().is_empty());
    assert!(list_devices(b"[]").unwrap().is_empty());
    assert!(list_devices(br#"{"devices": []}"#).unwrap().is_empty());
    assert!(matches!(
        get_simulator_udid(Some("x"), br#"{"devices": {"r": {}}}"#),
        Err(DeviceError::DeviceNotFound(_))
    ));
}

#[test]
fn simulators_are_listed_booted_first_then_by_name() {
    let listed = list_devices(LISTING.as_bytes()).unwrap();
    let got: Vec<_> = listed.iter().map(record).collect();
    assert_eq!(
        got,
        vec![
            quad("iPhone 14", "DDDD-4444", "Booted", "iOS-16-4"),
            quad("iPhone 15 Pro", "BBBB-2222", "Booted", "iOS-17-0"),
            quad("Unknown", "FFFF-6666", "Unknown", "iOS-16-4"),
            quad("iPhone 15", "EEEE-5555", "Shutdown", "iOS-16-4"),
            quad("iPhone 15", "AAAA-1111", "Shutdown", "iOS-17-0"),
        ]
    );
}

#[test]
fn unavailable_devices_are_left_out() {
    let listed = list_devices(LISTING.as_bytes()).unwrap();
    assert!(listed.iter().all(|s| s.name != "iPad Air" && s.name != "Ghost"));
}

#[test]
fn system_info_of_the_booted_device() {
    // The first running device in the order of the listing.
    let info = get_system_info(None, LISTING.as_bytes()).unwrap().unwrap();
    assert_eq!(record(&info), quad("iPhone 14", "DDDD-4444", "Booted", "iOS-16-4"));
}

#[test]
fn system_info_of_a_named_device() {
    let info = get_system_info(Some("iPad Air"), LISTING.as_bytes()).unwrap().unwrap();
    assert_eq!(record(&info), quad("iPad Air", "CCCC-3333", "Shutdown", "iOS-17-0"));
}

#[test]
fn system_info_of_an_unknown_name_is_an_error() {
    match get_system_info(Some("Pixel 8"), LISTING.as_bytes()) {
        Err(DeviceError::DeviceNotFound(name)) => assert_eq!(name, "Pixel 8"),
        other => panic!("unexpected: {:?}", other),
    }
}

#[test]
fn system_info_without_a_booted_device_is_none() {
    let listing = br#"{"devices": {"r": [{"name": "a", "udid": "u", "state": "Shutdown"}]}}"#;
    assert!(get_system_info(None, listing).unwrap().is_none());
}

#[test]
fn system_info_fills_in_what_is_missing() {
    let doc = parse_json(br#"{"devices": {"com.apple.CoreSimulator.SimRuntime.tvOS-17": [{"udid": "u1"}]}}"#).unwrap();
    let info = system_info(&doc, "u1").unwrap();
    assert_eq!(record(&info), quad("unknown", "u1", "unknown", "tvOS-17"));
    // A device without identifier is selected by the empty identifier.
    let bare = parse_json(br#"{"devices": {"r": [{"name": "n"}]}}"#).unwrap();
    assert_eq!(record(&system_info(&bare, "").unwrap()), quad("n", "", "unknown", "r"));
    assert!(system_info(&bare, "u1").is_none());
}

#[test]
fn listing_can_be_built_by_hand() {
    let device = |name: &str, udid: &str, state: &str| {
        Json::Object(vec![
            ("name".to_string(), Json::Text(name.to_string())),
            ("udid".to_string(), Json::Text(udid.to_string())),
            ("state".to_string(), Json::Text(state.to_string())),
            ("isAvailable".to_string(), Json::Bool(true)),
        ])
    };
    let doc = Json::Object(vec![(
        "devices".to_string(),
        Json::Object(vec![
            ("z-runtime".to_string(), Json::Array(vec![device("b", "1", "Shutdown"), device("a", "2", "Shutdown")])),
            ("not a list".to_string(), Json::Number("3".to_string())),
            ("a-runtime".to_string(), Json::Array(vec![device("c", "3", "Booted"), device("a", "4", "Shutdown")])),
        ]),
    )]);
    let all = devices(&doc);
    let runtimes: Vec<&str> = all.iter().map(|d| d.0).collect();
    assert_eq!(runtimes, vec!["z-runtime", "z-runtime", "a-runtime", "a-runtime"]);
    assert_eq!(find_udid(&doc, "a"), Some("2".to_string()));
    assert_eq!(find_udid(&doc, "c"), Some("3".to_string()));
    assert_eq!(find_udid(&doc, "d"), None);
    let got: Vec<_> = simulators(&doc).iter().map(record).collect();
    assert_eq!(
        got,
        vec![
            quad("c", "3", "Booted", "a-runtime"),
            quad("a", "2", "Shutdown", "z-runtime"),
            quad("a", "4", "Shutdown", "a-runtime"),
            quad("b", "1", "Shutdown", "z-runtime"),
        ]
    );
}

#[test]
fn json_members_are_looked_up_by_name() {
    let doc = parse_json(br#"{"a": 1, "b": "text", "c": true, "d": null, "e": [false, "x"], "f": {"g": "h"}}"#).unwrap();
    assert!(matches!(doc.get("a"), Some(Json::Number(n)) if n == "1"));
    assert_eq!(doc.get("b").and_then(|j| j.as_str()), Some("text"));
    assert_eq!(doc.get("c").and_then(|j| j.as_bool()), Some(true));
    assert!(doc.get("d").is_none());
    assert!(doc.get("missing").is_none());
    assert!(matches!(doc.get("e"), Some(Json::Array(items)) if items.len() == 2));
    assert_eq!(doc.get("f").and_then(|j| j.get("g")).and_then(|j| j.as_str()), Some("h"));
    assert!(doc.get("b").unwrap().get("x").is_none());
    assert_eq!(doc.get("b").unwrap().as_bool(), None);
    assert_eq!(doc.get("c").unwrap().as_str(), None);
}

#[test]
fn json_that_is_no_document_is_refused() {
    assert_eq!(parse_json(b"").err(), Some(InvalidJson));
    assert_eq!(parse_json(b"{").err(), Some(InvalidJson));
    assert_eq!(parse_json(b"{} trailing").err(), Some(InvalidJson));
    assert_eq!(parse_json(&[0xff, 0xfe]).err(), Some(InvalidJson));
    assert!(parse_json(b" null ").is_ok());
}
