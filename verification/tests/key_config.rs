use zankyou::app_event::{
    card_index, cards_that_fit, library_scroll, scrolled_offset, AppEvent, Direction, InputAction,
};
use zankyou::event::Event;
use zankyou::key_handler::EventFlow;
use zankyou::key_config::{InputMapping, KeyConfig, OneOrMany};
use zankyou::key_sequence::KeySequence;
use zankyou::key_chord::KeyChordParseError;

fn key_config() -> Result<KeyConfig<InputAction>, KeyChordParseError> {
    Ok(KeyConfig(vec![
        InputMapping {
            action: InputAction::Quit,
            inputs: OneOrMany::One(KeySequence::from_str("q")?),
        },
        InputMapping {
            action: InputAction::CursorUp,
            inputs: OneOrMany::Many(vec![
                KeySequence::from_str("k")?,
                KeySequence::from_str("<Up>")?,
            ]),
        },
        InputMapping {
            action: InputAction::CursorDown,
            inputs: OneOrMany::Many(vec![
                KeySequence::from_str("j")?,
                KeySequence::from_str("<Down>")?,
            ]),
        },
        InputMapping {
            action: InputAction::CursorLeft,
            inputs: OneOrMany::Many(vec![
                KeySequence::from_str("h")?,
                KeySequence::from_str("<Left>")?,
            ]),
        },
        InputMapping {
            action: InputAction::CursorRight,
            inputs: OneOrMany::Many(vec![
                KeySequence::from_str("l")?,
                KeySequence::from_str("<Right>")?,
            ]),
        },
    ]))
}

#[test]
fn generate_key_map() -> Result<(), KeyChordParseError> {
    let key_config = key_config()?;

    let key_map = key_config.generate_key_map();
    let key_map = key_map.as_slice();

    assert_eq!(key_map.len(), 9);

    assert_eq!(key_map[0].key_sequence.to_string(), "<Left>");
    assert_eq!(key_map[0].app_event, AppEvent::MoveCursor(Direction::Left));

    assert_eq!(key_map[1].key_sequence.to_string(), "<Right>");
    assert_eq!(key_map[1].app_event, AppEvent::MoveCursor(Direction::Right));

    assert_eq!(key_map[2].key_sequence.to_string(), "<Up>");
    assert_eq!(key_map[2].app_event, AppEvent::MoveCursor(Direction::Up));

    assert_eq!(key_map[3].key_sequence.to_string(), "<Down>");
    assert_eq!(key_map[3].app_event, AppEvent::MoveCursor(Direction::Down));

    assert_eq!(key_map[4].key_sequence.to_string(), "h");
    assert_eq!(key_map[4].app_event, AppEvent::MoveCursor(Direction::Left));

    assert_eq!(key_map[5].key_sequence.to_string(), "j");
    assert_eq!(key_map[5].app_event, AppEvent::MoveCursor(Direction::Down));

    assert_eq!(key_map[6].key_sequence.to_string(), "k");
    assert_eq!(key_map[6].app_event, AppEvent::MoveCursor(Direction::Up));

    assert_eq!(key_map[7].key_sequence.to_string(), "l");
    assert_eq!(key_map[7].app_event, AppEvent::MoveCursor(Direction::Right));

    assert_eq!(key_map[8].key_sequence.to_string(), "q");
    assert_eq!(key_map[8].app_event, AppEvent::Quit);

    Ok(())
}

#[test]
fn generate_key_map_of_default_config_is_empty() {
    let key_config: KeyConfig<InputAction> = KeyConfig::default();
    assert_eq!(key_config.generate_key_map().len(), 0);
}

#[test]
fn one_or_many_len_and_get() {
    let one = OneOrMany::One(7);
    assert_eq!(one.len(), 1);
    assert_eq!(one.get(0), Some(&7));
    assert_eq!(one.get(1), None);
    let many = OneOrMany::Many(vec![1, 2, 3]);
    assert_eq!(many.len(), 3);
    assert_eq!(many.get(2), Some(&3));
    assert_eq!(many.get(3), None);
    let none: OneOrMany<i32> = OneOrMany::Many(Vec::new());
    assert_eq!(none.len(), 0);
}

#[test]
fn input_action_events() {
    assert_eq!(AppEvent::from(InputAction::Quit), AppEvent::Quit);
    assert_eq!(AppEvent::from(InputAction::CursorUp), AppEvent::MoveCursor(Direction::Up));
    assert_eq!(AppEvent::from(InputAction::CursorDown), AppEvent::MoveCursor(Direction::Down));
    assert_eq!(AppEvent::from(InputAction::CursorLeft), AppEvent::MoveCursor(Direction::Left));
    assert_eq!(AppEvent::from(InputAction::CursorRight), AppEvent::MoveCursor(Direction::Right));
}

#[test]
fn direction_steps() {
    assert_eq!((Direction::Up.x(), Direction::Up.y()), (0, -1));
    assert_eq!((Direction::Down.x(), Direction::Down.y()), (0, 1));
    assert_eq!((Direction::Left.x(), Direction::Left.y()), (-1, 0));
    assert_eq!((Direction::Right.x(), Direction::Right.y()), (1, 0));
}

#[test]
fn scrolled_offset_is_held_in_range() {
    assert_eq!(scrolled_offset(0, Direction::Up), 0);
    assert_eq!(scrolled_offset(5, Direction::Up), 4);
    assert_eq!(scrolled_offset(5, Direction::Down), 6);
    assert_eq!(scrolled_offset(u16::MAX, Direction::Down), u16::MAX);
    assert_eq!(scrolled_offset(5, Direction::Left), 5);
}

#[test]
fn library_scroll_moves_on_cursor_events() {
    let up = Event::App(AppEvent::MoveCursor(Direction::Up));
    let down = Event::App(AppEvent::MoveCursor(Direction::Down));
    assert_eq!(library_scroll(&up, 3), (EventFlow::Consume, 2));
    assert_eq!(library_scroll(&up, 0), (EventFlow::Consume, 0));
    assert_eq!(library_scroll(&down, 3), (EventFlow::Consume, 4));
    assert_eq!(library_scroll(&Event::App(AppEvent::Quit), 3), (EventFlow::Propagate, 3));
    assert_eq!(library_scroll(&Event::<AppEvent>::Render(0), 9), (EventFlow::Propagate, 9));
}

#[test]
fn album_cards_fill_rows() {
    assert_eq!(cards_that_fit(80, 40), (3, 2));
    assert_eq!(cards_that_fit(24, 14), (0, 0));
    assert_eq!(card_index(2, 1, 3, 50), Some(5));
    assert_eq!(card_index(0, 0, 3, 0), None);
    assert_eq!(card_index(2, 16, 3, 50), None);
    assert_eq!(card_index(1, 16, 3, 50), Some(49));
}
