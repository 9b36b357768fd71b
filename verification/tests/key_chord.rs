use zankyou::key_chord::{
    KeyChord, KeyChordParseError, KeyCode, KeyEvent, KeyModifiers, MediaKeyCode, ModifierKeyCode,
};

fn chord(key: KeyCode, mods: KeyModifiers) -> KeyChord {
    KeyChord { key, mods }
}

#[test]
fn new_does_normalise() {
    let lower_shift = chord(KeyCode::Char('a'), KeyModifiers::shift());
    let new = KeyChord::new(KeyCode::Char('A'), KeyModifiers::none());

    assert_eq!(new, lower_shift.normalise());
}

#[test]
fn normalise_retains_mods() {
    let with_ctrl_no_caps = chord(KeyCode::Char('a'), KeyModifiers::control()).normalise();
    let with_ctrl = chord(KeyCode::Char('A'), KeyModifiers::control()).normalise();

    assert_eq!(with_ctrl_no_caps.mods, KeyModifiers::control());
    assert_eq!(
        with_ctrl.mods,
        KeyModifiers::control().union(KeyModifiers::shift())
    )
}

#[test]
fn normalise_equivalent_makes_equal() {
    let lower_no_shift = chord(KeyCode::Char('a'), KeyModifiers::none());
    let upper_no_shift = chord(KeyCode::Char('A'), KeyModifiers::none());
    let lower_shift = chord(KeyCode::Char('a'), KeyModifiers::shift());
    let upper_shift = chord(KeyCode::Char('A'), KeyModifiers::shift());

    assert_ne!(lower_no_shift, upper_no_shift);
    assert_ne!(lower_no_shift, lower_shift);
    assert_ne!(lower_no_shift, upper_shift);
    assert_ne!(upper_no_shift, lower_shift);
    assert_ne!(upper_no_shift, upper_shift);
    assert_ne!(lower_shift, upper_shift);

    let lower_no_shift = lower_no_shift.normalise();
    let upper_no_shift = upper_no_shift.normalise();
    let lower_shift = lower_shift.normalise();
    let upper_shift = upper_shift.normalise();

    assert_ne!(lower_no_shift, upper_no_shift);
    assert_ne!(lower_no_shift, lower_shift);
    assert_ne!(lower_no_shift, upper_shift);

    assert_eq!(upper_no_shift, lower_shift);
    assert_eq!(upper_no_shift, upper_shift);
    assert_eq!(lower_shift, upper_shift);
}

fn hyper_space() -> KeyChord {
    chord(
        KeyCode::Char(' '),
        KeyModifiers::super_key()
            .union(KeyModifiers::alt())
            .union(KeyModifiers::control())
            .union(KeyModifiers::shift()),
    )
}

#[test]
fn key_chord_display() {
    let f = chord(KeyCode::Char('f'), KeyModifiers::none());
    let alt_a = chord(KeyCode::Char('a'), KeyModifiers::alt());
    let esc = chord(KeyCode::Esc, KeyModifiers::none());
    let shift_f10 = chord(KeyCode::F(10), KeyModifiers::shift());

    assert_eq!(f.to_string(), "f");
    assert_eq!(alt_a.to_string(), "A-a");
    assert_eq!(hyper_space().to_string(), "D-A-C-S-Space");
    assert_eq!(esc.to_string(), "Esc");
    assert_eq!(shift_f10.to_string(), "S-F10");
}

#[test]
fn key_chord_from_str_happy_flow() -> Result<(), KeyChordParseError> {
    let f = chord(KeyCode::Char('f'), KeyModifiers::none());
    let alt_a = chord(KeyCode::Char('a'), KeyModifiers::alt());
    let esc = chord(KeyCode::Esc, KeyModifiers::none());
    let shift_f10 = chord(KeyCode::F(10), KeyModifiers::shift());

    assert_eq!(KeyChord::from_str("f")?, f);
    assert_eq!(KeyChord::from_str("A-a")?, alt_a);
    assert_eq!(KeyChord::from_str("D-A-C-S-Space")?, hyper_space());
    assert_eq!(KeyChord::from_str("a-C-d-S-sPaCe")?, hyper_space());
    assert_eq!(KeyChord::from_str("Esc")?, esc);
    assert_eq!(KeyChord::from_str("s-f10")?, shift_f10);

    Ok(())
}

#[test]
fn key_chord_from_str_invalid_input_errors() {
    assert_eq!(KeyChord::from_str(""), Err(KeyChordParseError::EmptyString));
    assert_eq!(KeyChord::from_str("Z-f"), Err(KeyChordParseError::InvalidModifier));
    assert_eq!(KeyChord::from_str("CC-f"), Err(KeyChordParseError::InvalidModifier));
    assert_eq!(KeyChord::from_str("C-c-f"), Err(KeyChordParseError::DuplicateModifier));
    assert_eq!(KeyChord::from_str("foo"), Err(KeyChordParseError::InvalidKey));
    assert_eq!(KeyChord::from_str("F99"), Err(KeyChordParseError::InvalidKey));
}

#[test]
fn key_chord_display_of_terminal_library_names() {
    assert_eq!(chord(KeyCode::BackTab, KeyModifiers::none()).to_string(), "Back Tab");
    assert_eq!(chord(KeyCode::CapsLock, KeyModifiers::control()).to_string(), "C-Caps Lock");
    assert_eq!(
        chord(KeyCode::Media(MediaKeyCode::PlayPause), KeyModifiers::none()).to_string(),
        "Play/Pause"
    );
    assert_eq!(chord(KeyCode::KeypadBegin, KeyModifiers::none()).to_string(), "Begin");
}

#[test]
fn key_chord_display_special_characters() {
    assert_eq!(chord(KeyCode::Char('<'), KeyModifiers::none()).to_string(), "lt");
    assert_eq!(chord(KeyCode::Char('\\'), KeyModifiers::none()).to_string(), "Bslash");
    assert_eq!(chord(KeyCode::Char('|'), KeyModifiers::alt()).to_string(), "A-Bar");
    assert_eq!(chord(KeyCode::F(1), KeyModifiers::none()).to_string(), "F1");
    assert_eq!(chord(KeyCode::F(200), KeyModifiers::none()).to_string(), "F200");
    assert_eq!(chord(KeyCode::Null, KeyModifiers::hyper()).to_string(), "Nul");
}

#[test]
fn key_chord_from_str_names() {
    assert_eq!(
        KeyChord::from_str("C-lt"),
        Ok(chord(KeyCode::Char('<'), KeyModifiers::control()))
    );
    assert_eq!(
        KeyChord::from_str("return"),
        Ok(chord(KeyCode::Enter, KeyModifiers::none()))
    );
    assert_eq!(
        KeyChord::from_str("M-PageDown"),
        Ok(chord(KeyCode::PageDown, KeyModifiers::alt()))
    );
    assert_eq!(KeyChord::from_str("F0"), Err(KeyChordParseError::InvalidKey));
    assert_eq!(
        KeyChord::from_str("C--"),
        Ok(chord(KeyCode::Char('-'), KeyModifiers::control()))
    );
    assert_eq!(KeyChord::from_str("-"), Ok(chord(KeyCode::Char('-'), KeyModifiers::none())));
    assert_eq!(
        KeyChord::from_str("s-a"),
        Ok(chord(KeyCode::Char('A'), KeyModifiers::shift()))
    );
    assert_eq!(
        KeyChord::from_str("Q"),
        Ok(chord(KeyCode::Char('Q'), KeyModifiers::shift()))
    );
}

#[test]
fn key_chord_text_round_trip() {
    let chords = [
        chord(KeyCode::Char('Q'), KeyModifiers::shift()),
        chord(KeyCode::Char('-'), KeyModifiers::control()),
        hyper_space(),
        chord(KeyCode::F(12), KeyModifiers::super_key()),
        chord(KeyCode::Char('\\'), KeyModifiers::none()),
        chord(KeyCode::Insert, KeyModifiers::alt().union(KeyModifiers::shift())),
    ];
    for c in chords {
        assert_eq!(KeyChord::from_str(&c.to_string()), Ok(c));
    }
}

#[test]
fn key_chord_from_char_and_event() {
    assert_eq!(
        KeyChord::from_char('x'),
        chord(KeyCode::Char('x'), KeyModifiers::none())
    );
    let event = KeyEvent { code: KeyCode::Char('b'), modifiers: KeyModifiers::shift() };
    assert_eq!(
        KeyChord::from_event(event),
        chord(KeyCode::Char('B'), KeyModifiers::shift())
    );
}

#[test]
fn key_chord_rank_orders_like_keys() {
    let left = chord(KeyCode::Left, KeyModifiers::none());
    let up = chord(KeyCode::Up, KeyModifiers::none());
    let a = chord(KeyCode::Char('a'), KeyModifiers::none());
    let ctrl_a = chord(KeyCode::Char('a'), KeyModifiers::control());
    assert!(left.rank() < up.rank());
    assert!(up.rank() < a.rank());
    assert!(a.rank() < ctrl_a.rank());
}

#[test]
fn key_chord_parse_error_messages() {
    assert_eq!(KeyChordParseError::EmptyString.message(), "empty key chord string");
    assert_eq!(KeyChordParseError::UnclosedTag.message(), "key chord has no closing tag");
}

#[test]
fn key_chord_display_of_modifier_keys() {
    assert_eq!(
        chord(KeyCode::Modifier(ModifierKeyCode::LeftShift), KeyModifiers::none()).to_string(),
        "Left Shift"
    );
    assert_eq!(
        chord(KeyCode::Modifier(ModifierKeyCode::IsoLevel5Shift), KeyModifiers::alt()).to_string(),
        "A-Iso Level 5 Shift"
    );
    let ctrl = chord(KeyCode::Modifier(ModifierKeyCode::RightControl), KeyModifiers::control()).to_string();
    assert!(ctrl.starts_with("C-") && ctrl.len() > 2);
}
