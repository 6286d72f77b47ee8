use super_matte_bros::keyboard::{KeyEvent, KeyboardHandler};

const UP: i32 = 1_073_741_906;
const RIGHT: i32 = 1_073_741_903;
const ESCAPE: i32 = 27;

#[test]
fn a_new_handler_has_seen_nothing() {
    let keys = KeyboardHandler::new();
    assert!(!keys.was_pressed(UP));
    assert!(!keys.was_released(UP));
    assert!(!keys.is_held(UP));
}

#[test]
fn key_down_presses_and_holds() {
    let mut keys = KeyboardHandler::new();
    keys.key_down(UP);
    assert!(keys.was_pressed(UP));
    assert!(keys.is_held(UP));
    assert!(!keys.was_released(UP));
    assert!(!keys.was_pressed(RIGHT));
    assert!(!keys.is_held(RIGHT));
}

#[test]
fn key_up_releases_and_lets_go() {
    let mut keys = KeyboardHandler::new();
    keys.key_down(UP);
    keys.key_up(UP);
    assert!(keys.was_pressed(UP));
    assert!(keys.was_released(UP));
    assert!(!keys.is_held(UP));
    keys.key_up(RIGHT);
    assert!(keys.was_released(RIGHT));
    assert!(!keys.was_pressed(RIGHT));
    assert!(!keys.is_held(RIGHT));
}

#[test]
fn clear_forgets_the_frame_but_not_what_is_held() {
    let mut keys = KeyboardHandler::new();
    keys.key_down(UP);
    keys.key_down(RIGHT);
    keys.key_up(RIGHT);
    keys.clear();
    assert!(!keys.was_pressed(UP));
    assert!(!keys.was_pressed(RIGHT));
    assert!(!keys.was_released(RIGHT));
    assert!(keys.is_held(UP));
    assert!(!keys.is_held(RIGHT));
    keys.key_up(UP);
    assert!(keys.was_released(UP));
    assert!(!keys.is_held(UP));
}

#[test]
fn process_takes_presses_and_releases() {
    let mut keys = KeyboardHandler::new();
    keys.process(&KeyEvent::KeyDown { keycode: ESCAPE, repeat: false });
    assert!(keys.was_pressed(ESCAPE));
    assert!(keys.is_held(ESCAPE));
    keys.process(&KeyEvent::KeyUp { keycode: ESCAPE });
    assert!(keys.was_released(ESCAPE));
    assert!(!keys.is_held(ESCAPE));
}

#[test]
fn process_ignores_repeats_and_other_events() {
    let mut keys = KeyboardHandler::new();
    keys.process(&KeyEvent::KeyDown { keycode: UP, repeat: true });
    keys.process(&KeyEvent::Other);
    assert!(!keys.was_pressed(UP));
    assert!(!keys.is_held(UP));
    keys.process(&KeyEvent::KeyDown { keycode: UP, repeat: false });
    keys.clear();
    keys.process(&KeyEvent::KeyDown { keycode: UP, repeat: true });
    assert!(!keys.was_pressed(UP));
    assert!(keys.is_held(UP));
}

#[test]
fn key_codes_of_any_sign_are_kept_apart() {
    let mut keys = KeyboardHandler::new();
    keys.key_down(i32::MIN);
    keys.key_down(-1);
    assert!(keys.is_held(i32::MIN));
    assert!(keys.is_held(-1));
    assert!(!keys.is_held(0));
    assert!(!keys.is_held(1));
    assert!(!keys.is_held(i32::MAX));
}
