use sim_automation::keys::{
    action_for, key_action, swipe_hold_millis, KeyAction, MIN_SWIPE_MILLIS,
};

#[test]
fn special_keys_are_known_in_any_case() {
    assert_eq!(key_action("home"), KeyAction::Home);
    assert_eq!(key_action("HOME"), KeyAction::Home);
    assert_eq!(key_action("Home"), KeyAction::Home);
    assert_eq!(key_action("lock"), KeyAction::Lock);
    assert_eq!(key_action("LoCk"), KeyAction::Lock);
    assert_eq!(key_action("shake"), KeyAction::Shake);
    assert_eq!(key_action("SHAKE"), KeyAction::Shake);
}

#[test]
fn other_keys_go_their_own_way() {
    assert_eq!(key_action("a"), KeyAction::Other);
    assert_eq!(key_action(""), KeyAction::Other);
    assert_eq!(key_action("home "), KeyAction::Other);
    assert_eq!(key_action("homes"), KeyAction::Other);
    assert_eq!(key_action("volumeup"), KeyAction::Other);
}

#[test]
fn swipe_holds_at_least_a_tenth_of_a_second() {
    assert_eq!(MIN_SWIPE_MILLIS, 100);
    assert_eq!(swipe_hold_millis(0), 100);
    assert_eq!(swipe_hold_millis(99), 100);
    assert_eq!(swipe_hold_millis(100), 100);
    assert_eq!(swipe_hold_millis(101), 101);
    assert_eq!(swipe_hold_millis(u32::MAX), u32::MAX);
}

#[test]
fn action_for_knows_the_lowercase_names_only() {
    assert_eq!(action_for("home"), KeyAction::Home);
    assert_eq!(action_for("lock"), KeyAction::Lock);
    assert_eq!(action_for("shake"), KeyAction::Shake);
    assert_eq!(action_for("HOME"), KeyAction::Other);
    assert_eq!(action_for("Lock"), KeyAction::Other);
    assert_eq!(action_for(""), KeyAction::Other);
}
