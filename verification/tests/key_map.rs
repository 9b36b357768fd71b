use zankyou::key_chord::KeyChord;
use zankyou::key_map::{KeyMap, KeyMapMatch, KeyMapping};
use zankyou::key_sequence::KeySequence;

fn create_key_map() -> KeyMap<i32> {
    KeyMap::from(
        [
            "ba", "zz", "f", "b", "bb", "goo", "a", "y", "gz", "zb", "go", "goa", "za",
        ]
        .iter()
        .map(|s| KeyMapping {
            key_sequence: KeySequence::from_str(s).unwrap(),
            app_event: 0,
        })
        .collect::<Vec<_>>(),
    )
}

#[test]
fn sort_on_create() {
    let key_map = create_key_map();
    let sorted = [
        "a", "b", "ba", "bb", "f", "go", "goa", "goo", "gz", "y", "za", "zb", "zz",
    ];

    for (key_mapping, reference) in key_map.as_slice().iter().zip(sorted.into_iter()) {
        assert_eq!(key_mapping.key_sequence.to_string(), reference);
    }
}

#[test]
fn match_key_random() {
    let key_map = create_key_map();
    let key_match = key_map.match_key(KeyChord::from_char('b'), KeyMapMatch::new());

    assert_eq!(key_match.match_start, 1);
    assert_eq!(key_match.match_end, 4);
    assert_eq!(key_match.full_match_end, 2);
    assert_eq!(key_match.next_key_idx, 1);

    let key_match = key_map.match_key(KeyChord::from_char('a'), key_match);

    assert_eq!(key_match.match_start, 2);
    assert_eq!(key_match.match_end, 3);
    assert_eq!(key_match.full_match_end, 3);
    assert_eq!(key_match.next_key_idx, 2);

    let key_match = key_map.match_key(KeyChord::from_char('z'), key_match);

    assert!(key_match.match_start >= key_match.match_end);
    assert_eq!(key_match.next_key_idx, 3);
}

#[test]
fn match_key_middle() {
    let key_map = create_key_map();
    let key_match = key_map.match_key(KeyChord::from_char('g'), KeyMapMatch::new());

    assert_eq!(key_match.match_start, 5);
    assert_eq!(key_match.match_end, 9);
    assert_eq!(key_match.full_match_end, 5);
    assert_eq!(key_match.next_key_idx, 1);

    let key_match = key_map.match_key(KeyChord::from_char('o'), key_match);

    assert_eq!(key_match.match_start, 5);
    assert_eq!(key_match.match_end, 8);
    assert_eq!(key_match.full_match_end, 6);
    assert_eq!(key_match.next_key_idx, 2);

    let key_match = key_map.match_key(KeyChord::from_char('o'), key_match);

    assert_eq!(key_match.match_start, 7);
    assert_eq!(key_match.match_end, 8);
    assert_eq!(key_match.full_match_end, 8);
    assert_eq!(key_match.next_key_idx, 3);

    let key_match = key_map.match_key(KeyChord::from_char('s'), key_match);

    assert!(key_match.match_start >= key_match.match_end);
    assert_eq!(key_match.next_key_idx, 4);
}

#[test]
fn match_key_first() {
    let key_map = create_key_map();
    let key_match = key_map.match_key(KeyChord::from_char('a'), KeyMapMatch::new());

    assert_eq!(key_match.match_start, 0);
    assert_eq!(key_match.match_end, 1);
    assert_eq!(key_match.full_match_end, 1);
    assert_eq!(key_match.next_key_idx, 1);

    let key_match = key_map.match_key(KeyChord::from_char('a'), key_match);

    assert!(key_match.match_start >= key_match.match_end);
    assert_eq!(key_match.next_key_idx, 2);
}

#[test]
fn match_key_last() {
    let key_map = create_key_map();
    let key_match = key_map.match_key(KeyChord::from_char('z'), KeyMapMatch::new());

    assert_eq!(key_match.match_start, 10);
    assert_eq!(key_match.match_end, 13);
    assert_eq!(key_match.full_match_end, 10);
    assert_eq!(key_match.next_key_idx, 1);

    let key_match = key_map.match_key(KeyChord::from_char('z'), key_match);

    assert_eq!(key_match.match_start, 12);
    assert_eq!(key_match.match_end, 13);
    assert_eq!(key_match.full_match_end, 13);
    assert_eq!(key_match.next_key_idx, 2);

    let key_match = key_map.match_key(KeyChord::from_char('z'), key_match);

    assert!(key_match.match_start >= key_match.match_end);
    assert_eq!(key_match.next_key_idx, 3);
}

fn go_match() -> KeyMapMatch {
    KeyMapMatch {
        match_start: 5,
        match_end: 8,
        full_match_end: 6,
        next_key_idx: 2,
    }
}

#[test]
fn matches() {
    let key_map = create_key_map();
    let key_match = go_match();

    let matches = key_match.matches(&key_map);
    assert_eq!(matches.len(), 3);
    assert_eq!(matches[0].key_sequence.to_string(), "go");
    assert_eq!(matches[1].key_sequence.to_string(), "goa");
    assert_eq!(matches[2].key_sequence.to_string(), "goo");
}

#[test]
fn matches_blank() {
    let key_map = create_key_map();
    let key_match = KeyMapMatch::new();

    let matches = key_match.matches(&key_map);
    assert_eq!(matches.len(), 13);
}

#[test]
fn full_matches() {
    let key_map = create_key_map();
    let key_match = go_match();

    let matches = key_match.full_matches(&key_map);
    assert_eq!(matches.len(), 1);
    assert_eq!(matches[0].key_sequence.to_string(), "go");
}

#[test]
fn full_matches_blank() {
    let key_map = create_key_map();
    let key_match = KeyMapMatch::new();

    let matches = key_match.full_matches(&key_map);
    assert_eq!(matches.len(), 0);
}

#[test]
fn partial_matches() {
    let key_map = create_key_map();
    let key_match = go_match();

    let matches = key_match.partial_matches(&key_map);
    assert_eq!(matches.len(), 2);
    assert_eq!(matches[0].key_sequence.to_string(), "goa");
    assert_eq!(matches[1].key_sequence.to_string(), "goo");
}

#[test]
fn partial_matches_blank() {
    let key_map = create_key_map();
    let key_match = KeyMapMatch::new();

    let matches = key_match.partial_matches(&key_map);
    assert_eq!(matches.len(), 13);
}

fn mapping(text: &str, event: &'static str) -> KeyMapping<&'static str> {
    KeyMapping::new(KeySequence::from_str(text).unwrap(), event)
}

#[test]
fn key_map_documented_example() {
    let key_mappings = vec![
        mapping("G", "cursor to bottom"),
        mapping("gd", "goto definition"),
        mapping("gg", "cursor to top"),
        mapping("go", "cursor to top"),
        mapping("k", "cursor up"),
        mapping("j", "cursor down"),
        mapping("l", "cursor right"),
        mapping("h", "cursor left"),
        mapping("hi", "omg hiiii"),
    ];
    let key_map = KeyMap::from(key_mappings.clone());
    let sorted = key_map.as_slice();
    assert_eq!(sorted[0], key_mappings[0]);
    assert_eq!(&sorted[1..4], &key_mappings[1..4]);

    let filtered = key_map.match_key(KeyChord::from_char('G'), KeyMapMatch::new());
    assert_eq!(filtered.matches(&key_map), &key_mappings[0..1]);
    assert_eq!(filtered.full_matches(&key_map), &key_mappings[0..1]);

    let mut filtered = key_map.match_key(KeyChord::from_char('g'), KeyMapMatch::new());
    assert_eq!(filtered.matches(&key_map), &key_mappings[1..4]);
    assert_eq!(filtered.full_matches(&key_map), &[]);
    filtered = key_map.match_key(KeyChord::from_char('g'), filtered);
    assert_eq!(filtered.matches(&key_map), &key_mappings[2..3]);
    assert_eq!(filtered.full_matches(&key_map), &key_mappings[2..3]);

    let mut filtered = key_map.match_key(KeyChord::from_char('h'), KeyMapMatch::new());
    assert_eq!(filtered.matches(&key_map), &key_mappings[7..9]);
    assert_eq!(filtered.full_matches(&key_map), &key_mappings[7..8]);
    filtered = key_map.match_key(KeyChord::from_char('i'), filtered);
    assert_eq!(filtered.matches(&key_map), &key_mappings[8..9]);
    assert_eq!(filtered.full_matches(&key_map), &key_mappings[8..9]);
}

#[test]
fn key_map_match_on_empty_map_never_panics() {
    let key_map: KeyMap<i32> = KeyMap::from(Vec::new());
    let m = key_map.match_key(KeyChord::from_char('x'), KeyMapMatch::new());
    assert_eq!(m.next_key_idx, 1);
    assert_eq!(m.matches(&key_map).len(), 0);
    assert_eq!(m.full_matches(&key_map).len(), 0);
    assert_eq!(m.partial_matches(&key_map).len(), 0);
    let m = key_map.match_key(KeyChord::from_char('y'), m);
    assert_eq!(m.next_key_idx, 2);
    assert_eq!(m.matches(&key_map).len(), 0);
}

#[test]
fn key_map_match_default_is_new() {
    assert_eq!(KeyMapMatch::default(), KeyMapMatch::new());
    assert_eq!(create_key_map().len(), 13);
}
