use zankyou::key_chord::{
    chord_text_is_ok, KeyChord, KeyChordParseError, KeyCode, KeyModifiers, ModifierKeyCode,
};
use zankyou::key_sequence::{sequence_text_is_ok, KeySequence};

struct Sequences {
    f: KeySequence,
    esc: KeySequence,
    e_s_c: KeySequence,
    alt_a: KeySequence,
    f_alt_a: KeySequence,
    alt_a_f: KeySequence,
    space_ctrl_w_left_h_esc: KeySequence,
}

fn sequences() -> Sequences {
    Sequences {
        f: KeySequence::from_vec(vec![KeyChord::from_char('f')]),
        esc: KeySequence::from_vec(vec![KeyChord::new(KeyCode::Esc, KeyModifiers::none())]),
        e_s_c: KeySequence::from_vec(vec![
            KeyChord::from_char('E'),
            KeyChord::from_char('s'),
            KeyChord::from_char('c'),
        ]),
        alt_a: KeySequence::from_vec(vec![KeyChord::new(KeyCode::Char('a'), KeyModifiers::alt())]),
        f_alt_a: KeySequence::from_vec(vec![
            KeyChord::from_char('f'),
            KeyChord::new(KeyCode::Char('a'), KeyModifiers::alt()),
        ]),
        alt_a_f: KeySequence::from_vec(vec![
            KeyChord::new(KeyCode::Char('a'), KeyModifiers::alt()),
            KeyChord::from_char('f'),
        ]),
        space_ctrl_w_left_h_esc: KeySequence::from_vec(vec![
            KeyChord::from_char(' '),
            KeyChord::new(KeyCode::Char('w'), KeyModifiers::control()),
            KeyChord::new(KeyCode::Left, KeyModifiers::none()),
            KeyChord::from_char('h'),
            KeyChord::new(KeyCode::Esc, KeyModifiers::none()),
        ]),
    }
}

#[test]
fn key_sequence_display() {
    let s = sequences();

    assert_eq!(s.f.to_string(), "f");
    assert_eq!(s.esc.to_string(), "<Esc>");
    assert_eq!(s.e_s_c.to_string(), "<S-E>sc");
    assert_eq!(s.alt_a.to_string(), "<A-a>");
    assert_eq!(s.f_alt_a.to_string(), "f<A-a>");
    assert_eq!(s.alt_a_f.to_string(), "<A-a>f");
    assert_eq!(s.space_ctrl_w_left_h_esc.to_string(), "<Space><C-w><Left>h<Esc>");
}

#[test]
fn key_sequence_from_str_happy_flow() -> Result<(), KeyChordParseError> {
    let s = sequences();

    assert_eq!(KeySequence::from_str("f")?, s.f);
    assert_eq!(KeySequence::from_str("<esc>")?, s.esc);
    assert_eq!(KeySequence::from_str("Esc")?, s.e_s_c);
    assert_eq!(KeySequence::from_str("<A-a>")?, s.alt_a);
    assert_eq!(KeySequence::from_str("f<a-a>")?, s.f_alt_a);
    assert_eq!(KeySequence::from_str("<a-a>f")?, s.alt_a_f);
    assert_eq!(KeySequence::from_str("<space><C-w><left>h<ESC>")?, s.space_ctrl_w_left_h_esc);

    Ok(())
}

#[test]
fn key_sequence_from_str_invalid_input_errors() {
    assert_eq!(KeySequence::from_str("a<>b"), Err(KeyChordParseError::EmptyString));
    assert_eq!(
        KeySequence::from_str("<C-r><Z-f>"),
        Err(KeyChordParseError::InvalidModifier)
    );
    assert_eq!(KeySequence::from_str("<CC-f>"), Err(KeyChordParseError::InvalidModifier));
    assert_eq!(KeySequence::from_str("<C-c-f>"), Err(KeyChordParseError::DuplicateModifier));
    assert_eq!(KeySequence::from_str("<Cw>"), Err(KeyChordParseError::InvalidKey));
    assert_eq!(KeySequence::from_str("<C-w"), Err(KeyChordParseError::UnclosedTag));
}

#[test]
fn key_sequence_text_round_trip() {
    let s = sequences();
    for seq in [s.f, s.esc, s.e_s_c, s.alt_a, s.f_alt_a, s.alt_a_f, s.space_ctrl_w_left_h_esc] {
        assert_eq!(KeySequence::from_str(&seq.to_string()), Ok(seq.duplicate()));
    }
    let tricky = KeySequence::from_vec(vec![
        KeyChord::from_char('>'),
        KeyChord::from_char('<'),
        KeyChord::new(KeyCode::Char('-'), KeyModifiers::control()),
        KeyChord::new(KeyCode::F(11), KeyModifiers::none()),
    ]);
    assert_eq!(tricky.to_string(), "><lt><C--><F11>");
    assert_eq!(KeySequence::from_str(&tricky.to_string()), Ok(tricky.duplicate()));
}

#[test]
fn key_sequence_accessors() {
    let chords = [KeyChord::from_char('g'), KeyChord::from_char('d')];
    let seq = KeySequence::from_slice(&chords);
    assert_eq!(seq.len(), 2);
    assert_eq!(seq.get(0), Some(&chords[0]));
    assert_eq!(seq.get(1), Some(&chords[1]));
    assert_eq!(seq.get(2), None);
    assert_eq!(seq.as_slice(), &chords[..]);
    assert_eq!(KeySequence::from_str(""), Ok(KeySequence::from_vec(Vec::new())));
}

#[test]
fn key_sequence_text_checks() {
    assert!(sequence_text_is_ok("gg<C-w>h"));
    assert!(sequence_text_is_ok("<C-w"));
    assert!(!sequence_text_is_ok("é"));
    assert!(!sequence_text_is_ok("<C-é>"));
    assert!(sequence_text_is_ok("<é>"));
    assert!(sequence_text_is_ok("<Z-f>é"));
    assert!(chord_text_is_ok("é"));
    assert!(!chord_text_is_ok("C-é"));
    assert!(chord_text_is_ok("C-e"));
}

#[test]
fn key_sequence_display_with_modifier_key() {
    let seq = KeySequence::from_vec(vec![
        KeyChord::from_char('g'),
        KeyChord::new(KeyCode::Modifier(ModifierKeyCode::LeftShift), KeyModifiers::none()),
        KeyChord::new(KeyCode::Modifier(ModifierKeyCode::LeftAlt), KeyModifiers::control()),
    ]);
    let text = seq.to_string();
    assert!(text.starts_with("g<Left Shift><C-"));
    assert!(text.ends_with('>'));
    assert!(text.len() > "g<Left Shift><C->".len());
}
