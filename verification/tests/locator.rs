use sim_automation::locator::{find, find_element, find_exact, fold_case, position, position_exact};
use sim_automation::mapper::ScreenPoint;
use sim_automation::tree::UiElement;

fn element(title: &str, value: &str, description: &str, frame: (i32, i32, i32, i32)) -> UiElement {
    UiElement {
        index: 0,
        role: "AXButton".to_string(),
        title: title.to_string(),
        value: value.to_string(),
        description: description.to_string(),
        x: frame.0,
        y: frame.1,
        width: frame.2,
        height: frame.3,
    }
}

#[test]
fn find_returns_the_center_of_the_frame() {
    let elements = vec![element("Login", "", "", (120, 340, 80, 44))];
    assert_eq!(find(&elements, "Login"), Some(ScreenPoint { x: 160, y: 362 }));
}

#[test]
fn center_halves_are_rounded_down() {
    let elements = vec![element("Odd", "", "", (10, 20, 5, 7))];
    assert_eq!(find(&elements, "odd"), Some(ScreenPoint { x: 12, y: 23 }));
    let negative = vec![element("Odd", "", "", (-10, -20, 5, 1))];
    assert_eq!(find(&negative, "odd"), Some(ScreenPoint { x: -8, y: -20 }));
}

#[test]
fn find_is_case_insensitive() {
    let elements = vec![
        element("Cancel", "", "", (0, 0, 10, 10)),
        element("Login", "", "", (120, 340, 80, 44)),
    ];
    let upper = find(&elements, "Login");
    let lower = find(&elements, "login");
    assert_eq!(upper, Some(ScreenPoint { x: 160, y: 362 }));
    assert_eq!(upper, lower);
    assert_eq!(find(&elements, "LOGIN"), upper);
    assert_eq!(find(&elements, "lOgIn"), upper);
}

#[test]
fn case_of_the_element_text_does_not_matter_either() {
    let elements = vec![element("LOG IN NOW", "", "", (0, 0, 10, 10))];
    assert_eq!(find(&elements, "log in"), Some(ScreenPoint { x: 5, y: 5 }));
    let greek = vec![element("ΑΘΗΝΑ", "", "", (0, 0, 10, 10))];
    assert_eq!(find(&greek, "αθην"), Some(ScreenPoint { x: 5, y: 5 }));
}

#[test]
fn find_matches_a_part_of_the_text() {
    let elements = vec![element("Please log in here", "", "", (0, 0, 4, 4))];
    assert_eq!(find(&elements, "log in"), Some(ScreenPoint { x: 2, y: 2 }));
    assert_eq!(find(&elements, "login"), None);
}

#[test]
fn find_looks_at_title_value_and_description() {
    let elements = vec![
        element("one", "", "", (0, 0, 2, 2)),
        element("", "two", "", (10, 0, 2, 2)),
        element("", "", "three", (20, 0, 2, 2)),
    ];
    assert_eq!(find(&elements, "one"), Some(ScreenPoint { x: 1, y: 1 }));
    assert_eq!(find(&elements, "two"), Some(ScreenPoint { x: 11, y: 1 }));
    assert_eq!(find(&elements, "three"), Some(ScreenPoint { x: 21, y: 1 }));
}

#[test]
fn find_does_not_look_at_the_role() {
    let elements = vec![element("", "", "", (0, 0, 2, 2))];
    assert_eq!(find(&elements, "AXButton"), None);
}

#[test]
fn first_match_wins() {
    let elements = vec![
        element("Other", "", "", (0, 0, 2, 2)),
        element("", "", "Login button", (100, 100, 20, 20)),
        element("Login", "", "", (200, 200, 20, 20)),
    ];
    assert_eq!(find(&elements, "login"), Some(ScreenPoint { x: 110, y: 110 }));
}

#[test]
fn find_in_empty_list_is_none() {
    assert_eq!(find(&[], "Login"), None);
    assert_eq!(find(&[], ""), None);
}

#[test]
fn find_without_match_is_none() {
    let elements = vec![
        element("Cancel", "off", "Stops", (0, 0, 10, 10)),
        element("OK", "on", "Goes on", (0, 20, 10, 10)),
    ];
    assert_eq!(find(&elements, "Login"), None);
}

#[test]
fn zero_area_elements_are_excluded() {
    let flat = vec![element("Login", "", "", (10, 10, 0, 5))];
    assert_eq!(find(&flat, "Login"), None);
    let thin = vec![element("Login", "", "", (10, 10, 5, 0))];
    assert_eq!(find(&thin, "Login"), None);
    let negative = vec![element("Login", "", "", (10, 10, -5, 5))];
    assert_eq!(find(&negative, "Login"), None);
}

#[test]
fn zero_area_element_gives_way_to_one_with_area() {
    let elements = vec![
        element("Login", "", "", (10, 10, 0, 5)),
        element("Login", "", "", (50, 60, 10, 20)),
    ];
    assert_eq!(find(&elements, "Login"), Some(ScreenPoint { x: 55, y: 70 }));
}

#[test]
fn empty_query_finds_the_first_element_with_area() {
    let elements = vec![
        element("a", "", "", (0, 0, 0, 0)),
        element("", "", "", (10, 10, 2, 2)),
    ];
    assert_eq!(find(&elements, ""), Some(ScreenPoint { x: 11, y: 11 }));
}

#[test]
fn center_of_a_huge_frame_does_not_overflow() {
    let elements = vec![element("big", "", "", (i32::MAX, i32::MAX, i32::MAX, i32::MAX))];
    let half = i64::from(i32::MAX / 2);
    assert_eq!(
        find(&elements, "big"),
        Some(ScreenPoint { x: i64::from(i32::MAX) + half, y: i64::from(i32::MAX) + half })
    );
}

#[test]
fn find_element_reads_the_dump_and_searches_it() {
    let dump = "0|AXWindow|Simulator|missing value|missing value|100,50|400x866\n\
                broken line\n\
                1|AXButton|missing value|missing value|Login button|120,340|0x44\n\
                2|AXButton|Login|missing value|missing value|120,400|80x44\n";
    assert_eq!(find_element(dump, "login"), Some(ScreenPoint { x: 160, y: 422 }));
    assert_eq!(find_element(dump, "SIMULATOR"), Some(ScreenPoint { x: 300, y: 483 }));
    assert_eq!(find_element(dump, "missing value"), None);
    assert_eq!(find_element(dump, "logout"), None);
    assert_eq!(find_element("", "login"), None);
}

#[test]
fn exact_search_minds_letter_case() {
    let elements = vec![
        element("LOGIN", "", "", (0, 0, 10, 10)),
        element("Login", "", "", (20, 20, 10, 10)),
    ];
    assert_eq!(find_exact(&elements, "Login"), Some(ScreenPoint { x: 25, y: 25 }));
    assert_eq!(find_exact(&elements, "LOGIN"), Some(ScreenPoint { x: 5, y: 5 }));
    assert_eq!(find_exact(&elements, "login"), None);
    assert_eq!(position_exact(&elements, "Login"), Some(1));
    assert_eq!(position_exact(&elements, "login"), None);
}

#[test]
fn exact_search_passes_over_empty_frames() {
    let elements = vec![
        element("a", "", "", (0, 0, 0, 10)),
        element("", "a", "", (0, 0, 10, 0)),
        element("", "", "xax", (7, 9, 2, 2)),
    ];
    assert_eq!(position_exact(&elements, "a"), Some(2));
    assert_eq!(find_exact(&elements, "a"), Some(ScreenPoint { x: 8, y: 10 }));
}

#[test]
fn fold_case_lowers_the_three_texts_only() {
    let mut e = element("Title", "VALUE", "Straße", (1, 2, 3, 4));
    e.index = 7;
    let folded = fold_case(&[e]);
    assert_eq!(folded.len(), 1);
    assert_eq!(folded[0].title, "title");
    assert_eq!(folded[0].value, "value");
    assert_eq!(folded[0].description, "straße");
    assert_eq!(folded[0].role, "AXButton");
    assert_eq!(folded[0].index, 7);
    assert_eq!((folded[0].x, folded[0].y, folded[0].width, folded[0].height), (1, 2, 3, 4));
    assert!(fold_case(&[]).is_empty());
}

#[test]
fn position_is_the_index_of_what_find_takes() {
    let elements = vec![
        element("Other", "", "", (0, 0, 2, 2)),
        element("login", "", "", (0, 0, 0, 0)),
        element("", "Login", "", (100, 100, 20, 20)),
    ];
    assert_eq!(position(&elements, "LOGIN"), Some(2));
    assert_eq!(position(&elements, "other"), Some(0));
    assert_eq!(position(&elements, "nothing"), None);
    assert_eq!(position(&[], "x"), None);
}
