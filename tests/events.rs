use bottom::events::{
    dispatch_key, scroll, validate_refresh_rate, Action, ConfigError, DisplayState, InputClass,
    InputThrottle, Key, Modifiers,
};

#[test]
fn refresh_rate_below_250_is_rejected() {
    assert_eq!(validate_refresh_rate(249), Err(ConfigError::RateTooLow));
    assert_eq!(validate_refresh_rate(0), Err(ConfigError::RateTooLow));
}

#[test]
fn refresh_rate_of_250_is_accepted() {
    assert_eq!(validate_refresh_rate(250), Ok(250));
    assert_eq!(validate_refresh_rate(1000), Ok(1000));
}

#[test]
fn refresh_rate_above_u64_is_rejected() {
    assert_eq!(validate_refresh_rate(u64::MAX as u128), Ok(u64::MAX));
    assert_eq!(validate_refresh_rate(u64::MAX as u128 + 1), Err(ConfigError::RateTooHigh));
}

#[test]
fn key_events_5ms_apart_forward_once() {
    let mut t = InputThrottle::new(0);
    assert!(t.accept(InputClass::Key, 100));
    assert!(!t.accept(InputClass::Key, 105));
    assert!(!t.accept(InputClass::Key, 119));
    assert!(t.accept(InputClass::Key, 120));
}

#[test]
fn throttle_classes_are_independent() {
    let mut t = InputThrottle::new(0);
    assert!(t.accept(InputClass::Key, 50));
    assert!(t.accept(InputClass::Pointer, 52));
    assert!(!t.accept(InputClass::Pointer, 60));
    assert_eq!(t.last_key_ms, 50);
    assert_eq!(t.last_pointer_ms, 52);
}

#[test]
fn throttle_ignores_clock_going_back() {
    let mut t = InputThrottle::new(100);
    assert!(!t.accept(InputClass::Key, 10));
    assert_eq!(t.last_key_ms, 100);
}

#[test]
fn frozen_display_keeps_snapshot() {
    let mut d = DisplayState::new(1u32);
    assert!(d.on_update(2));
    assert!(!d.toggle_freeze());
    for n in 3..10u32 {
        assert!(!d.on_update(n));
        assert_eq!(d.data, 2);
    }
    assert!(d.toggle_freeze());
    assert!(d.on_update(10));
    assert_eq!(d.data, 10);
}

#[test]
fn q_quits_unless_searching() {
    assert_eq!(dispatch_key(Key::Char('q'), Modifiers::Empty, false), Action::Quit);
    assert_eq!(dispatch_key(Key::Char('q'), Modifiers::Empty, true), Action::CharInput('q'));
    assert_eq!(dispatch_key(Key::Char('x'), Modifiers::Empty, false), Action::CharInput('x'));
}

#[test]
fn control_keys_have_their_own_actions() {
    assert_eq!(dispatch_key(Key::Char('c'), Modifiers::Control, true), Action::Quit);
    assert_eq!(dispatch_key(Key::Char('f'), Modifiers::Control, false), Action::EnableSearch);
    assert_eq!(dispatch_key(Key::Char('h'), Modifiers::Control, false), Action::MoveLeft);
    assert_eq!(dispatch_key(Key::Right, Modifiers::Control, false), Action::MoveRight);
    assert_eq!(dispatch_key(Key::Char('r'), Modifiers::Control, false), Action::Reset);
    assert_eq!(dispatch_key(Key::Char('s'), Modifiers::Control, false), Action::ToggleSimpleSearch);
    assert_eq!(dispatch_key(Key::Char('z'), Modifiers::Control, false), Action::Ignore);
    assert_eq!(dispatch_key(Key::Char('c'), Modifiers::Other, false), Action::Ignore);
}

#[test]
fn plain_navigation_keys() {
    assert_eq!(dispatch_key(Key::Home, Modifiers::Empty, false), Action::SkipToFirst);
    assert_eq!(dispatch_key(Key::End, Modifiers::Empty, false), Action::SkipToLast);
    assert_eq!(dispatch_key(Key::Esc, Modifiers::Empty, false), Action::Escape);
    assert_eq!(dispatch_key(Key::Other, Modifiers::Empty, false), Action::Ignore);
}

#[test]
fn scrolling_moves_position_within_bounds() {
    assert_eq!(scroll(5, true), 4);
    assert_eq!(scroll(0, true), 0);
    assert_eq!(scroll(5, false), 6);
    assert_eq!(scroll(u64::MAX, false), u64::MAX);
}
