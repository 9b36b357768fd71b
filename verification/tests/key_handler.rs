use zankyou::key_chord::{KeyCode, KeyEvent, KeyModifiers};
use zankyou::key_handler::{EventFlow, KeyHandler, KeyInput};
use zankyou::key_map::{KeyMap, KeyMapping};
use zankyou::key_sequence::KeySequence;

fn handler() -> KeyHandler<&'static str> {
    let mappings = vec![
        KeyMapping::new(KeySequence::from_str("gg").unwrap(), "top"),
        KeyMapping::new(KeySequence::from_str("g").unwrap(), "go"),
        KeyMapping::new(KeySequence::from_str("k").unwrap(), "up"),
        KeyMapping::new(KeySequence::from_str("<C-w>h").unwrap(), "left window"),
    ];
    KeyHandler::new(KeyMap::from(mappings))
}

fn key(c: char) -> KeyInput {
    KeyInput::Key(KeyEvent { code: KeyCode::Char(c), modifiers: KeyModifiers::none() })
}

const HALF_SECOND: u128 = 500_000_000;

#[test]
fn key_handler_fires_single_key() {
    let mut h = handler();
    assert_eq!(h.update(key('k')), (EventFlow::Consume, vec!["up"]));
    assert_eq!(h.pressed_count(), 0);
}

#[test]
fn key_handler_waits_for_longer_sequence() {
    let mut h = handler();
    assert_eq!(h.update(key('g')), (EventFlow::Consume, vec![]));
    assert_eq!(h.pressed_count(), 1);
    assert_eq!(h.update(key('g')), (EventFlow::Consume, vec!["top"]));
    assert_eq!(h.pressed_count(), 0);
}

#[test]
fn key_handler_fires_on_timeout() {
    let mut h = handler();
    assert_eq!(h.update(key('g')), (EventFlow::Consume, vec![]));
    assert_eq!(h.update(KeyInput::Tick(HALF_SECOND)), (EventFlow::Propagate, vec![]));
    assert_eq!(h.timeout_nanos(), HALF_SECOND);
    assert_eq!(h.update(KeyInput::Tick(HALF_SECOND)), (EventFlow::Propagate, vec![]));
    assert_eq!(h.update(KeyInput::Tick(1)), (EventFlow::Propagate, vec!["go"]));
    assert_eq!(h.timeout_nanos(), 0);
    assert_eq!(h.pressed_count(), 0);
}

#[test]
fn key_handler_timeout_without_full_match_fires_nothing() {
    let mut h = handler();
    let ctrl_w = KeyInput::Key(KeyEvent { code: KeyCode::Char('w'), modifiers: KeyModifiers::control() });
    assert_eq!(h.update(ctrl_w), (EventFlow::Consume, vec![]));
    assert_eq!(h.update(KeyInput::Tick(2 * HALF_SECOND + 1)), (EventFlow::Propagate, vec![]));
    assert_eq!(h.pressed_count(), 0);
    assert_eq!(h.update(key('h')), (EventFlow::Propagate, vec![]));
}

#[test]
fn key_handler_passes_unmapped_key_on() {
    let mut h = handler();
    assert_eq!(h.update(key('x')), (EventFlow::Propagate, vec![]));
    assert_eq!(h.update(KeyInput::Tick(3 * HALF_SECOND)), (EventFlow::Propagate, vec![]));
    assert_eq!(h.timeout_nanos(), 0);
    assert_eq!(h.update(KeyInput::Other), (EventFlow::Propagate, vec![]));
}

#[test]
fn key_handler_normalises_key_events() {
    let mut h = KeyHandler::new(KeyMap::from(vec![KeyMapping::new(
        KeySequence::from_str("G").unwrap(),
        "bottom",
    )]));
    let shift_g = KeyInput::Key(KeyEvent { code: KeyCode::Char('g'), modifiers: KeyModifiers::shift() });
    assert_eq!(h.update(shift_g), (EventFlow::Consume, vec!["bottom"]));
}
