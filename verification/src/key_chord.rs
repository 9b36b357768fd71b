//! A single key press together with its modifier keys, and its text form
//! (`a`, `S-A`, `C-w`, `D-A-C-S-Space`, `F10`, ...).

use vstd::prelude::*;

use crate::text::{
    ascii_lower, ascii_lower_seq, ascii_upper, char_to_ascii_upper, chars_eq, chars_of, chars_to_ascii_lower,
    decimal, digit_char, find_char, is_ascii_char, lemma_find_char_bounds, lemma_find_char_none,
    lemma_find_char_some, push_char,
    push_decimal_u8,
};

verus! {

/// A media key.
#[derive(Debug, Clone, Copy, PartialEq, Eq, Structural, PartialOrd, Ord, Hash)]
pub enum MediaKeyCode {
    Play,
    Pause,
    PlayPause,
    Reverse,
    Stop,
    FastForward,
    Rewind,
    TrackNext,
    TrackPrevious,
    Record,
    LowerVolume,
    RaiseVolume,
    MuteVolume,
}

/// A modifier key pressed on its own.
#[derive(Debug, Clone, Copy, PartialEq, Eq, Structural, PartialOrd, Ord, Hash)]
pub enum ModifierKeyCode {
    LeftShift,
    LeftControl,
    LeftAlt,
    LeftSuper,
    LeftHyper,
    LeftMeta,
    RightShift,
    RightControl,
    RightAlt,
    RightSuper,
    RightHyper,
    RightMeta,
    IsoLevel3Shift,
    IsoLevel5Shift,
}

/// A key, as the terminal reports it. The variants are declared in the
/// order of the terminal library's own key codes, which orders key chords.
#[derive(Debug, Clone, Copy, PartialEq, Eq, Structural, PartialOrd, Ord, Hash)]
pub enum KeyCode {
    Backspace,
    Enter,
    Left,
    Right,
    Up,
    Down,
    Home,
    End,
    PageUp,
    PageDown,
    Tab,
    BackTab,
    Delete,
    Insert,
    F(u8),
    Char(char),
    Null,
    Esc,
    CapsLock,
    ScrollLock,
    NumLock,
    PrintScreen,
    Pause,
    Menu,
    KeypadBegin,
    Media(MediaKeyCode),
    Modifier(ModifierKeyCode),
}

/// A set of modifier keys, as bits: shift 1, control 2, alt 4, super 8,
/// hyper 16, meta 32.
#[derive(Debug, Clone, Copy, PartialEq, Eq, Structural, PartialOrd, Ord, Hash)]
pub struct KeyModifiers {
    pub bits: u8,
}

/// Whether every bit of `flag` is set in `bits`.
pub open spec fn has_flag(bits: u8, flag: u8) -> bool {
    bits & flag == flag
}

impl KeyModifiers {
    /// No modifier.
    pub fn none() -> (r: KeyModifiers)
        ensures
            r.bits == 0,
    {
        KeyModifiers { bits: 0 }
    }

    /// The shift key.
    pub fn shift() -> (r: KeyModifiers)
        ensures
            r.bits == 1,
    {
        KeyModifiers { bits: 1 }
    }

    /// The control key.
    pub fn control() -> (r: KeyModifiers)
        ensures
            r.bits == 2,
    {
        KeyModifiers { bits: 2 }
    }

    /// The alt key.
    pub fn alt() -> (r: KeyModifiers)
        ensures
            r.bits == 4,
    {
        KeyModifiers { bits: 4 }
    }

    /// The super key.
    pub fn super_key() -> (r: KeyModifiers)
        ensures
            r.bits == 8,
    {
        KeyModifiers { bits: 8 }
    }

    /// The hyper key.
    pub fn hyper() -> (r: KeyModifiers)
        ensures
            r.bits == 16,
    {
        KeyModifiers { bits: 16 }
    }

    /// The meta key.
    pub fn meta() -> (r: KeyModifiers)
        ensures
            r.bits == 32,
    {
        KeyModifiers { bits: 32 }
    }

    /// Both sets together.
    pub fn union(self, other: KeyModifiers) -> (r: KeyModifiers)
        ensures
            r.bits == self.bits | other.bits,
    {
        KeyModifiers { bits: self.bits | other.bits }
    }

    /// Whether every modifier of `other` is in `self`.
    pub fn contains(self, other: KeyModifiers) -> (r: bool)
        ensures
            r == has_flag(self.bits, other.bits),
    {
        self.bits & other.bits == other.bits
    }
}

/// A key together with the modifiers held while it was pressed.
#[derive(Debug, Clone, Copy, PartialEq, Eq, Structural, PartialOrd, Ord, Hash)]
pub struct KeyChord {
    pub key: KeyCode,
    pub mods: KeyModifiers,
}

/// A key press as the terminal reports it: the key and the modifiers.
#[derive(Debug, Clone, Copy, PartialEq, Eq, Structural)]
pub struct KeyEvent {
    pub code: KeyCode,
    pub modifiers: KeyModifiers,
}

/// Why a key chord or key sequence text was refused.
#[derive(Debug, Clone, Copy, PartialEq, Eq, Structural)]
pub enum KeyChordParseError {
    EmptyString,
    InvalidModifier,
    DuplicateModifier,
    InvalidKey,
    UnclosedTag,
}

impl KeyChordParseError {
    /// The message that describes the error.
    pub fn message(&self) -> (r: &'static str)
        ensures
            r@ == self.spec_message(),
    {
        match self {
            KeyChordParseError::EmptyString => "empty key chord string",
            KeyChordParseError::InvalidModifier => "invalid modifier identifier",
            KeyChordParseError::DuplicateModifier => "duplicate key modifier",
            KeyChordParseError::InvalidKey => "invalid key identifier",
            KeyChordParseError::UnclosedTag => "key chord has no closing tag",
        }
    }

    /// The message that describes the error, as characters.
    pub open spec fn spec_message(&self) -> Seq<char> {
        match self {
            KeyChordParseError::EmptyString => "empty key chord string"@,
            KeyChordParseError::InvalidModifier => "invalid modifier identifier"@,
            KeyChordParseError::DuplicateModifier => "duplicate key modifier"@,
            KeyChordParseError::InvalidKey => "invalid key identifier"@,
            KeyChordParseError::UnclosedTag => "key chord has no closing tag"@,
        }
    }
}

// ---------------------------------------------------------------------------
// Order of key chords

/// Position of a media key in its declaration.
pub open spec fn media_index(m: MediaKeyCode) -> int {
    match m {
        MediaKeyCode::Play => 0,
        MediaKeyCode::Pause => 1,
        MediaKeyCode::PlayPause => 2,
        MediaKeyCode::Reverse => 3,
        MediaKeyCode::Stop => 4,
        MediaKeyCode::FastForward => 5,
        MediaKeyCode::Rewind => 6,
        MediaKeyCode::TrackNext => 7,
        MediaKeyCode::TrackPrevious => 8,
        MediaKeyCode::Record => 9,
        MediaKeyCode::LowerVolume => 10,
        MediaKeyCode::RaiseVolume => 11,
        MediaKeyCode::MuteVolume => 12,
    }
}

/// Position of a modifier key in its declaration.
pub open spec fn modifier_index(m: ModifierKeyCode) -> int {
    match m {
        ModifierKeyCode::LeftShift => 0,
        ModifierKeyCode::LeftControl => 1,
        ModifierKeyCode::LeftAlt => 2,
        ModifierKeyCode::LeftSuper => 3,
        ModifierKeyCode::LeftHyper => 4,
        ModifierKeyCode::LeftMeta => 5,
        ModifierKeyCode::RightShift => 6,
        ModifierKeyCode::RightControl => 7,
        ModifierKeyCode::RightAlt => 8,
        ModifierKeyCode::RightSuper => 9,
        ModifierKeyCode::RightHyper => 10,
        ModifierKeyCode::RightMeta => 11,
        ModifierKeyCode::IsoLevel3Shift => 12,
        ModifierKeyCode::IsoLevel5Shift => 13,
    }
}

/// Position of the key's variant in the declaration of `KeyCode`.
pub open spec fn key_variant(k: KeyCode) -> int {
    match k {
        KeyCode::Backspace => 0,
        KeyCode::Enter => 1,
        KeyCode::Left => 2,
        KeyCode::Right => 3,
        KeyCode::Up => 4,
        KeyCode::Down => 5,
        KeyCode::Home => 6,
        KeyCode::End => 7,
        KeyCode::PageUp => 8,
        KeyCode::PageDown => 9,
        KeyCode::Tab => 10,
        KeyCode::BackTab => 11,
        KeyCode::Delete => 12,
        KeyCode::Insert => 13,
        KeyCode::F(_) => 14,
        KeyCode::Char(_) => 15,
        KeyCode::Null => 16,
        KeyCode::Esc => 17,
        KeyCode::CapsLock => 18,
        KeyCode::ScrollLock => 19,
        KeyCode::NumLock => 20,
        KeyCode::PrintScreen => 21,
        KeyCode::Pause => 22,
        KeyCode::Menu => 23,
        KeyCode::KeypadBegin => 24,
        KeyCode::Media(_) => 25,
        KeyCode::Modifier(_) => 26,
    }
}

/// The value a variant carries, as a number.
pub open spec fn key_payload(k: KeyCode) -> int {
    match k {
        KeyCode::F(n) => n as int,
        KeyCode::Char(c) => c as int,
        KeyCode::Media(m) => media_index(m),
        KeyCode::Modifier(m) => modifier_index(m),
        _ => 0,
    }
}

/// A number that orders keys as their derived order does: by variant, then by
/// the value the variant carries.
pub open spec fn key_rank(k: KeyCode) -> int {
    key_variant(k) * 0x200000 + key_payload(k)
}

/// A number that orders key chords: by key, then by modifier bits.
pub open spec fn chord_rank(c: KeyChord) -> int {
    key_rank(c.key) * 256 + c.mods.bits
}

/// The value a variant carries fits below the spacing of the variants.
pub proof fn lemma_key_payload_bounds(k: KeyCode)
    ensures
        0 <= key_payload(k) < 0x200000,
{
    match k {
        KeyCode::Char(c) => {
            assert((c as int) <= 0x10FFFF);
        },
        _ => {},
    }
}

/// Two key chords with the same rank are the same chord.
pub proof fn lemma_chord_rank_injective(a: KeyChord, b: KeyChord)
    ensures
        chord_rank(a) == chord_rank(b) <==> a == b,
{
    lemma_key_payload_bounds(a.key);
    lemma_key_payload_bounds(b.key);
    if chord_rank(a) == chord_rank(b) {
        assert(a.mods.bits == b.mods.bits);
        assert(key_rank(a.key) == key_rank(b.key));
        assert(key_variant(a.key) == key_variant(b.key));
        assert(key_payload(a.key) == key_payload(b.key));
        assert(a.mods == b.mods);
    }
}

impl KeyChord {
    /// The ordering number of this chord; chords compare as their ranks do.
    pub fn rank(&self) -> (r: u64)
        ensures
            r == chord_rank(*self),
    {
        proof {
            lemma_key_payload_bounds(self.key);
        }
        let (variant, payload): (u64, u64) = match self.key {
            KeyCode::Backspace => (0, 0),
            KeyCode::Enter => (1, 0),
            KeyCode::Left => (2, 0),
            KeyCode::Right => (3, 0),
            KeyCode::Up => (4, 0),
            KeyCode::Down => (5, 0),
            KeyCode::Home => (6, 0),
            KeyCode::End => (7, 0),
            KeyCode::PageUp => (8, 0),
            KeyCode::PageDown => (9, 0),
            KeyCode::Tab => (10, 0),
            KeyCode::BackTab => (11, 0),
            KeyCode::Delete => (12, 0),
            KeyCode::Insert => (13, 0),
            KeyCode::F(n) => (14, n as u64),
            KeyCode::Char(c) => (15, c as u64),
            KeyCode::Null => (16, 0),
            KeyCode::Esc => (17, 0),
            KeyCode::CapsLock => (18, 0),
            KeyCode::ScrollLock => (19, 0),
            KeyCode::NumLock => (20, 0),
            KeyCode::PrintScreen => (21, 0),
            KeyCode::Pause => (22, 0),
            KeyCode::Menu => (23, 0),
            KeyCode::KeypadBegin => (24, 0),
            KeyCode::Media(m) => (25, media_ordinal(m) as u64),
            KeyCode::Modifier(m) => (26, modifier_ordinal(m) as u64),
        };
        (variant * 0x200000 + payload) * 256 + self.mods.bits as u64
    }
}

/// Position of a media key in its declaration.
pub fn media_ordinal(m: MediaKeyCode) -> (r: u8)
    ensures
        r == media_index(m),
{
    match m {
        MediaKeyCode::Play => 0,
        MediaKeyCode::Pause => 1,
        MediaKeyCode::PlayPause => 2,
        MediaKeyCode::Reverse => 3,
        MediaKeyCode::Stop => 4,
        MediaKeyCode::FastForward => 5,
        MediaKeyCode::Rewind => 6,
        MediaKeyCode::TrackNext => 7,
        MediaKeyCode::TrackPrevious => 8,
        MediaKeyCode::Record => 9,
        MediaKeyCode::LowerVolume => 10,
        MediaKeyCode::RaiseVolume => 11,
        MediaKeyCode::MuteVolume => 12,
    }
}

/// Position of a modifier key in its declaration.
pub fn modifier_ordinal(m: ModifierKeyCode) -> (r: u8)
    ensures
        r == modifier_index(m),
{
    match m {
        ModifierKeyCode::LeftShift => 0,
        ModifierKeyCode::LeftControl => 1,
        ModifierKeyCode::LeftAlt => 2,
        ModifierKeyCode::LeftSuper => 3,
        ModifierKeyCode::LeftHyper => 4,
        ModifierKeyCode::LeftMeta => 5,
        ModifierKeyCode::RightShift => 6,
        ModifierKeyCode::RightControl => 7,
        ModifierKeyCode::RightAlt => 8,
        ModifierKeyCode::RightSuper => 9,
        ModifierKeyCode::RightHyper => 10,
        ModifierKeyCode::RightMeta => 11,
        ModifierKeyCode::IsoLevel3Shift => 12,
        ModifierKeyCode::IsoLevel5Shift => 13,
    }
}

// ---------------------------------------------------------------------------
// Normal form

/// Whether `c` is an ASCII upper-case letter.
pub open spec fn is_ascii_upper(c: char) -> bool {
    'A' <= c && c <= 'Z'
}

impl KeyChord {
    /// The normal form of a chord: an upper-case letter always carries shift,
    /// and a letter with shift is upper case.
    pub open spec fn spec_normalise(self) -> KeyChord {
        match self.key {
            KeyCode::Char(c) => if is_ascii_upper(c) {
                KeyChord { key: self.key, mods: KeyModifiers { bits: self.mods.bits | 1 } }
            } else if has_flag(self.mods.bits, 1) {
                KeyChord { key: KeyCode::Char(ascii_upper(c)), mods: self.mods }
            } else {
                self
            },
            _ => self,
        }
    }

    /// The chord [`KeyChord::new`] builds.
    pub open spec fn spec_new(key: KeyCode, mods: KeyModifiers) -> KeyChord {
        KeyChord { key, mods }.spec_normalise()
    }

    /// Brings the chord into normal form (see [`KeyChord::spec_normalise`]).
    pub fn normalise(self) -> (r: KeyChord)
        ensures
            r == self.spec_normalise(),
    {
        match self.key {
            KeyCode::Char(c) => {
                if 'A' <= c && c <= 'Z' {
                    KeyChord { key: self.key, mods: KeyModifiers { bits: self.mods.bits | 1 } }
                } else if self.mods.bits & 1 == 1 {
                    KeyChord { key: KeyCode::Char(char_to_ascii_upper(c)), mods: self.mods }
                } else {
                    self
                }
            },
            _ => self,
        }
    }

    /// The chord of `key` with `mods`, in normal form.
    pub fn new(key: KeyCode, mods: KeyModifiers) -> (r: KeyChord)
        ensures
            r == KeyChord::spec_new(key, mods),
    {
        KeyChord { key, mods }.normalise()
    }

    /// The chord of the character `ch` with no modifier, in normal form.
    pub fn from_char(ch: char) -> (r: KeyChord)
        ensures
            r == KeyChord::spec_new(KeyCode::Char(ch), KeyModifiers { bits: 0 }),
    {
        KeyChord::new(KeyCode::Char(ch), KeyModifiers { bits: 0 })
    }

    /// The chord of a key press, in normal form.
    pub fn from_event(event: KeyEvent) -> (r: KeyChord)
        ensures
            r == KeyChord::spec_new(event.code, event.modifiers),
    {
        KeyChord::new(event.code, event.modifiers)
    }
}

// ---------------------------------------------------------------------------
// Text form

/// The `S-`, `C-`, `A-`, `D-` prefix that names the modifiers of a chord:
/// super, alt, control, shift, in that order. Hyper and meta are not named.
pub open spec fn modifier_prefix(bits: u8) -> Seq<char> {
    (if has_flag(bits, 8) {
        "D-"@
    } else {
        Seq::empty()
    }) + (if has_flag(bits, 4) {
        "A-"@
    } else {
        Seq::empty()
    }) + (if has_flag(bits, 2) {
        "C-"@
    } else {
        Seq::empty()
    }) + (if has_flag(bits, 1) {
        "S-"@
    } else {
        Seq::empty()
    })
}

/// The terminal library's names of the keys that have no name of their own
/// here, by position: back tab, caps lock, scroll lock, num lock, print screen,
/// pause, menu, keypad begin.
pub open spec fn plain_key_name(i: int) -> Seq<char> {
    if i == 0 {
        "Back Tab"@
    } else if i == 1 {
        "Caps Lock"@
    } else if i == 2 {
        "Scroll Lock"@
    } else if i == 3 {
        "Num Lock"@
    } else if i == 4 {
        "Print Screen"@
    } else if i == 5 {
        "Pause"@
    } else if i == 6 {
        "Menu"@
    } else {
        "Begin"@
    }
}

/// The terminal library's names of the media keys, by position.
pub open spec fn media_name(i: int) -> Seq<char> {
    if i == 0 {
        "Play"@
    } else if i == 1 {
        "Pause"@
    } else if i == 2 {
        "Play/Pause"@
    } else if i == 3 {
        "Reverse"@
    } else if i == 4 {
        "Stop"@
    } else if i == 5 {
        "Fast Forward"@
    } else if i == 6 {
        "Rewind"@
    } else if i == 7 {
        "Next Track"@
    } else if i == 8 {
        "Previous Track"@
    } else if i == 9 {
        "Record"@
    } else if i == 10 {
        "Lower Volume"@
    } else if i == 11 {
        "Raise Volume"@
    } else {
        "Mute Volume"@
    }
}

/// The terminal library's names of the modifier keys that are named alike on
/// every platform, by position; the control, alt and super keys are named
/// after the platform and have no entry.
pub open spec fn modifier_key_name(i: int) -> Option<Seq<char>> {
    if i == 0 {
        Some("Left Shift"@)
    } else if i == 4 {
        Some("Left Hyper"@)
    } else if i == 5 {
        Some("Left Meta"@)
    } else if i == 6 {
        Some("Right Shift"@)
    } else if i == 10 {
        Some("Right Hyper"@)
    } else if i == 11 {
        Some("Right Meta"@)
    } else if i == 12 {
        Some("Iso Level 3 Shift"@)
    } else if i == 13 {
        Some("Iso Level 5 Shift"@)
    } else {
        None
    }
}

/// The text of a key in a chord; `None` for a modifier key whose name
/// depends on the platform.
pub open spec fn key_text(k: KeyCode) -> Option<Seq<char>> {
    match k {
        KeyCode::Null => Some("Nul"@),
        KeyCode::Backspace => Some("BS"@),
        KeyCode::Tab => Some("Tab"@),
        KeyCode::Enter => Some("CR"@),
        KeyCode::Esc => Some("Esc"@),
        KeyCode::Char(c) => if c == ' ' {
            Some("Space"@)
        } else if c == '<' {
            Some("lt"@)
        } else if c == '\\' {
            Some("Bslash"@)
        } else if c == '|' {
            Some("Bar"@)
        } else {
            Some(seq![c])
        },
        KeyCode::Delete => Some("Del"@),
        KeyCode::Up => Some("Up"@),
        KeyCode::Down => Some("Down"@),
        KeyCode::Left => Some("Left"@),
        KeyCode::Right => Some("Right"@),
        KeyCode::Home => Some("Home"@),
        KeyCode::End => Some("End"@),
        KeyCode::PageUp => Some("PageUp"@),
        KeyCode::PageDown => Some("PageDown"@),
        KeyCode::Insert => Some("Insert"@),
        KeyCode::F(n) => Some("F"@ + decimal(n as nat)),
        KeyCode::BackTab => Some(plain_key_name(0)),
        KeyCode::CapsLock => Some(plain_key_name(1)),
        KeyCode::ScrollLock => Some(plain_key_name(2)),
        KeyCode::NumLock => Some(plain_key_name(3)),
        KeyCode::PrintScreen => Some(plain_key_name(4)),
        KeyCode::Pause => Some(plain_key_name(5)),
        KeyCode::Menu => Some(plain_key_name(6)),
        KeyCode::KeypadBegin => Some(plain_key_name(7)),
        KeyCode::Media(m) => Some(media_name(media_index(m))),
        KeyCode::Modifier(m) => modifier_key_name(modifier_index(m)),
    }
}

/// The text of a chord: the modifier prefix, then the key.
pub open spec fn chord_text(c: KeyChord) -> Option<Seq<char>> {
    match key_text(c.key) {
        Some(t) => Some(modifier_prefix(c.mods.bits) + t),
        None => None,
    }
}

/// Whether `t` is a text of the chord `c`: its text where that is known
/// (see [`chord_text`]); else the modifier prefix followed by a name that is
/// not empty.
pub open spec fn chord_text_fits(c: KeyChord, t: Seq<char>) -> bool {
    match chord_text(c) {
        Some(x) => t == x,
        None => t.len() > modifier_prefix(c.mods.bits).len() && t.subrange(
            0,
            modifier_prefix(c.mods.bits).len() as int,
        ) == modifier_prefix(c.mods.bits),
    }
}

/// `Display` of the terminal library's `KeyCode`, for the keys named by
/// position in [`plain_key_name`]. Its source writes exactly those names.
#[verifier::external_body]
fn crossterm_plain_key_name(index: u8) -> (name: String)
    requires
        index < 8,
    ensures
        name@ == plain_key_name(index as int),
{
    [
        crossterm::event::KeyCode::BackTab, crossterm::event::KeyCode::CapsLock,
        crossterm::event::KeyCode::ScrollLock, crossterm::event::KeyCode::NumLock,
        crossterm::event::KeyCode::PrintScreen, crossterm::event::KeyCode::Pause,
        crossterm::event::KeyCode::Menu, crossterm::event::KeyCode::KeypadBegin,
    ][index as usize].to_string()
}

/// `Display` of the terminal library's `MediaKeyCode`, chosen by position in
/// its declaration. Its source writes exactly the names of [`media_name`].
#[verifier::external_body]
fn crossterm_media_key_name(index: u8) -> (name: String)
    requires
        index < 13,
    ensures
        name@ == media_name(index as int),
{
    [
        crossterm::event::MediaKeyCode::Play, crossterm::event::MediaKeyCode::Pause,
        crossterm::event::MediaKeyCode::PlayPause, crossterm::event::MediaKeyCode::Reverse,
        crossterm::event::MediaKeyCode::Stop, crossterm::event::MediaKeyCode::FastForward,
        crossterm::event::MediaKeyCode::Rewind, crossterm::event::MediaKeyCode::TrackNext,
        crossterm::event::MediaKeyCode::TrackPrevious, crossterm::event::MediaKeyCode::Record,
        crossterm::event::MediaKeyCode::LowerVolume, crossterm::event::MediaKeyCode::RaiseVolume,
        crossterm::event::MediaKeyCode::MuteVolume,
    ][index as usize].to_string()
}

/// `Display` of the terminal library's `ModifierKeyCode`, chosen by position in
/// its declaration. Its source writes the names of [`modifier_key_name`] for the
/// keys listed there; the control, alt and super keys get names that depend on
/// the target platform (for example "Left Ctrl" or "Left Control"), of which
/// only that they are not empty is stated.
#[verifier::external_body]
fn crossterm_modifier_key_name(index: u8) -> (name: String)
    requires
        index < 14,
    ensures
        name@.len() > 0,
        modifier_key_name(index as int) matches Some(t) ==> name@ == t,
{
    [
        crossterm::event::ModifierKeyCode::LeftShift, crossterm::event::ModifierKeyCode::LeftControl,
        crossterm::event::ModifierKeyCode::LeftAlt, crossterm::event::ModifierKeyCode::LeftSuper,
        crossterm::event::ModifierKeyCode::LeftHyper, crossterm::event::ModifierKeyCode::LeftMeta,
        crossterm::event::ModifierKeyCode::RightShift, crossterm::event::ModifierKeyCode::RightControl,
        crossterm::event::ModifierKeyCode::RightAlt, crossterm::event::ModifierKeyCode::RightSuper,
        crossterm::event::ModifierKeyCode::RightHyper, crossterm::event::ModifierKeyCode::RightMeta,
        crossterm::event::ModifierKeyCode::IsoLevel3Shift,
        crossterm::event::ModifierKeyCode::IsoLevel5Shift,
    ][index as usize].to_string()
}

impl KeyChord {
    /// The text of the chord: the modifier prefix (`D-`, `A-`, `C-`, `S-`),
    /// then the key's name (`Space`, `lt`, `CR`, `F10`, the character itself, ...).
    pub fn to_string(&self) -> (r: String)
        ensures
            chord_text_fits(*self, r@),
            chord_text(*self) matches Some(t) ==> r@ == t,
    {
        let mut out = String::new();
        if self.mods.contains(KeyModifiers::super_key()) {
            out.append("D-");
        }
        if self.mods.contains(KeyModifiers::alt()) {
            out.append("A-");
        }
        if self.mods.contains(KeyModifiers::control()) {
            out.append("C-");
        }
        if self.mods.contains(KeyModifiers::shift()) {
            out.append("S-");
        }
        let ghost prefix = out@;
        assert(prefix =~= modifier_prefix(self.mods.bits));
        match self.key {
            KeyCode::Null => out.append("Nul"),
            KeyCode::Backspace => out.append("BS"),
            KeyCode::Tab => out.append("Tab"),
            KeyCode::Enter => out.append("CR"),
            KeyCode::Esc => out.append("Esc"),
            KeyCode::Char(c) => {
                if c == ' ' {
                    out.append("Space");
                } else if c == '<' {
                    out.append("lt");
                } else if c == '\\' {
                    out.append("Bslash");
                } else if c == '|' {
                    out.append("Bar");
                } else {
                    push_char(&mut out, c);
                }
            },
            KeyCode::Delete => out.append("Del"),
            KeyCode::Up => out.append("Up"),
            KeyCode::Down => out.append("Down"),
            KeyCode::Left => out.append("Left"),
            KeyCode::Right => out.append("Right"),
            KeyCode::Home => out.append("Home"),
            KeyCode::End => out.append("End"),
            KeyCode::PageUp => out.append("PageUp"),
            KeyCode::PageDown => out.append("PageDown"),
            KeyCode::Insert => out.append("Insert"),
            KeyCode::F(n) => {
                out.append("F");
                push_decimal_u8(&mut out, n);
                assert(out@ =~= prefix + ("F"@ + decimal(n as nat)));
            },
            KeyCode::BackTab => out.append(crossterm_plain_key_name(0).as_str()),
            KeyCode::CapsLock => out.append(crossterm_plain_key_name(1).as_str()),
            KeyCode::ScrollLock => out.append(crossterm_plain_key_name(2).as_str()),
            KeyCode::NumLock => out.append(crossterm_plain_key_name(3).as_str()),
            KeyCode::PrintScreen => out.append(crossterm_plain_key_name(4).as_str()),
            KeyCode::Pause => out.append(crossterm_plain_key_name(5).as_str()),
            KeyCode::Menu => out.append(crossterm_plain_key_name(6).as_str()),
            KeyCode::KeypadBegin => out.append(crossterm_plain_key_name(7).as_str()),
            KeyCode::Media(m) => out.append(crossterm_media_key_name(media_ordinal(m)).as_str()),
            KeyCode::Modifier(m) => {
                let name = crossterm_modifier_key_name(modifier_ordinal(m));
                out.append(name.as_str());
                assert(out@.subrange(0, prefix.len() as int) =~= prefix);
            },
        }
        assert(chord_text(*self) matches Some(t) ==> out@ == t);
        out
    }
}

// ---------------------------------------------------------------------------
// Reading the text form

/// Whether parsing `t` as a chord completes: a text of two or more characters
/// must end in a one-byte character, since the last byte is cut off to find
/// the modifiers, which fails inside a longer character.
pub open spec fn chord_text_ok(t: Seq<char>) -> bool {
    t.len() < 2 || is_ascii_char(t.last())
}

/// Index just after the last `-` in `t[0..end]`, or 0 if there is none.
pub open spec fn split_point(t: Seq<char>, end: int) -> int
    decreases end,
{
    if end <= 0 {
        0
    } else if t[end - 1] == '-' {
        end
    } else {
        split_point(t, end - 1)
    }
}

/// The modifier bit that a one-letter name denotes.
pub open spec fn modifier_flag(piece: Seq<char>) -> Option<u8> {
    if piece.len() == 1 {
        let c = piece[0];
        if c == 'S' || c == 's' {
            Some(1u8)
        } else if c == 'C' || c == 'c' {
            Some(2u8)
        } else if c == 'A' || c == 'a' || c == 'M' || c == 'm' {
            Some(4u8)
        } else if c == 'D' || c == 'd' {
            Some(8u8)
        } else {
            None
        }
    } else {
        None
    }
}

/// Reads the `-`-separated modifier names of `body` from left to right, adding
/// each to `acc`; the first unknown name or repeated modifier is the error.
pub open spec fn fold_modifiers(body: Seq<char>, acc: u8) -> Result<u8, KeyChordParseError>
    decreases body.len(),
{
    let k = match find_char(body, '-') {
        Some(i) => i,
        None => body.len() as int,
    };
    match modifier_flag(body.subrange(0, k)) {
        None => Err(KeyChordParseError::InvalidModifier),
        Some(f) => if has_flag(acc, f) {
            Err(KeyChordParseError::DuplicateModifier)
        } else if k >= body.len() {
            Ok(acc | f)
        } else {
            proof {
                lemma_find_char_bounds(body, '-');
            }
            fold_modifiers(body.subrange(k + 1, body.len() as int), acc | f)
        },
    }
}

/// The modifiers that the prefix `m` (empty, or ending in `-`) names.
pub open spec fn parse_modifiers(m: Seq<char>) -> Result<u8, KeyChordParseError> {
    if m.len() == 0 {
        Ok(0u8)
    } else {
        fold_modifiers(m.subrange(0, m.len() - 1), 0)
    }
}

/// The key that a lower-cased name of two or more characters denotes.
pub open spec fn key_by_name(w: Seq<char>) -> Option<KeyCode> {
    if w == seq!['n', 'u', 'l'] {
        Some(KeyCode::Null)
    } else if w == seq!['b', 's'] {
        Some(KeyCode::Backspace)
    } else if w == seq!['t', 'a', 'b'] {
        Some(KeyCode::Tab)
    } else if w == seq!['c', 'r'] || w == seq!['r', 'e', 't', 'u', 'r', 'n'] || w == seq![
        'e',
        'n',
        't',
        'e',
        'r',
    ] || w == seq!['e', 'o', 'l'] {
        Some(KeyCode::Enter)
    } else if w == seq!['e', 's', 'c'] {
        Some(KeyCode::Esc)
    } else if w == seq!['s', 'p', 'a', 'c', 'e'] {
        Some(KeyCode::Char(' '))
    } else if w == seq!['l', 't'] {
        Some(KeyCode::Char('<'))
    } else if w == seq!['b', 's', 'l', 'a', 's', 'h'] {
        Some(KeyCode::Char('\\'))
    } else if w == seq!['b', 'a', 'r'] {
        Some(KeyCode::Char('|'))
    } else if w == seq!['d', 'e', 'l'] {
        Some(KeyCode::Delete)
    } else if w == seq!['u', 'p'] {
        Some(KeyCode::Up)
    } else if w == seq!['d', 'o', 'w', 'n'] {
        Some(KeyCode::Down)
    } else if w == seq!['l', 'e', 'f', 't'] {
        Some(KeyCode::Left)
    } else if w == seq!['r', 'i', 'g', 'h', 't'] {
        Some(KeyCode::Right)
    } else if w == seq!['h', 'o', 'm', 'e'] {
        Some(KeyCode::Home)
    } else if w == seq!['e', 'n', 'd'] {
        Some(KeyCode::End)
    } else if w == seq!['p', 'a', 'g', 'e', 'u', 'p'] {
        Some(KeyCode::PageUp)
    } else if w == seq!['p', 'a', 'g', 'e', 'd', 'o', 'w', 'n'] {
        Some(KeyCode::PageDown)
    } else if w == seq!['i', 'n', 's', 'e', 'r', 't'] {
        Some(KeyCode::Insert)
    } else if w.len() == 2 && w[0] == 'f' && '1' <= w[1] && w[1] <= '9' {
        Some(KeyCode::F(((w[1] as u32) - 48) as u8))
    } else if w == seq!['f', '1', '0'] {
        Some(KeyCode::F(10))
    } else if w == seq!['f', '1', '1'] {
        Some(KeyCode::F(11))
    } else if w == seq!['f', '1', '2'] {
        Some(KeyCode::F(12))
    } else {
        None
    }
}

/// The key that the text after the modifiers denotes: a single character is
/// that character; a longer text is a key name, in any letter case.
pub open spec fn key_of(key_str: Seq<char>) -> Option<KeyCode> {
    if key_str.len() == 1 {
        Some(KeyCode::Char(key_str[0]))
    } else {
        key_by_name(ascii_lower_seq(key_str))
    }
}

/// The chord that the text `t` denotes, or why there is none.
///
/// An empty text is an error; one character is that character; otherwise the
/// text is split after the last `-` before its final character into the
/// modifier names and the key.
pub open spec fn spec_parse_chord(t: Seq<char>) -> Result<KeyChord, KeyChordParseError> {
    if t.len() == 0 {
        Err(KeyChordParseError::EmptyString)
    } else if t.len() == 1 {
        Ok(KeyChord::spec_new(KeyCode::Char(t[0]), KeyModifiers { bits: 0 }))
    } else {
        let sp = split_point(t, t.len() - 1);
        match parse_modifiers(t.subrange(0, sp)) {
            Err(e) => Err(e),
            Ok(bits) => match key_of(t.subrange(sp, t.len() as int)) {
                None => Err(KeyChordParseError::InvalidKey),
                Some(k) => Ok(KeyChord::spec_new(k, KeyModifiers { bits })),
            },
        }
    }
}

proof fn lemma_split_point_bounds(t: Seq<char>, end: int)
    requires
        0 <= end <= t.len(),
    ensures
        0 <= split_point(t, end) <= end,
        split_point(t, end) > 0 ==> t[split_point(t, end) - 1] == '-',
    decreases end,
{
    if end > 0 && t[end - 1] != '-' {
        lemma_split_point_bounds(t, end - 1);
    }
}

/// The key that a lower-cased name denotes.
fn key_by_name_exec(w: &[char]) -> (r: Option<KeyCode>)
    ensures
        r == key_by_name(w@),
{
    if chars_eq(w, &['n', 'u', 'l']) {
        Some(KeyCode::Null)
    } else if chars_eq(w, &['b', 's']) {
        Some(KeyCode::Backspace)
    } else if chars_eq(w, &['t', 'a', 'b']) {
        Some(KeyCode::Tab)
    } else if chars_eq(w, &['c', 'r']) || chars_eq(w, &['r', 'e', 't', 'u', 'r', 'n']) || chars_eq(
        w,
        &['e', 'n', 't', 'e', 'r'],
    ) || chars_eq(w, &['e', 'o', 'l']) {
        Some(KeyCode::Enter)
    } else if chars_eq(w, &['e', 's', 'c']) {
        Some(KeyCode::Esc)
    } else if chars_eq(w, &['s', 'p', 'a', 'c', 'e']) {
        Some(KeyCode::Char(' '))
    } else if chars_eq(w, &['l', 't']) {
        Some(KeyCode::Char('<'))
    } else if chars_eq(w, &['b', 's', 'l', 'a', 's', 'h']) {
        Some(KeyCode::Char('\\'))
    } else if chars_eq(w, &['b', 'a', 'r']) {
        Some(KeyCode::Char('|'))
    } else if chars_eq(w, &['d', 'e', 'l']) {
        Some(KeyCode::Delete)
    } else if chars_eq(w, &['u', 'p']) {
        Some(KeyCode::Up)
    } else if chars_eq(w, &['d', 'o', 'w', 'n']) {
        Some(KeyCode::Down)
    } else if chars_eq(w, &['l', 'e', 'f', 't']) {
        Some(KeyCode::Left)
    } else if chars_eq(w, &['r', 'i', 'g', 'h', 't']) {
        Some(KeyCode::Right)
    } else if chars_eq(w, &['h', 'o', 'm', 'e']) {
        Some(KeyCode::Home)
    } else if chars_eq(w, &['e', 'n', 'd']) {
        Some(KeyCode::End)
    } else if chars_eq(w, &['p', 'a', 'g', 'e', 'u', 'p']) {
        Some(KeyCode::PageUp)
    } else if chars_eq(w, &['p', 'a', 'g', 'e', 'd', 'o', 'w', 'n']) {
        Some(KeyCode::PageDown)
    } else if chars_eq(w, &['i', 'n', 's', 'e', 'r', 't']) {
        Some(KeyCode::Insert)
    } else if w.len() == 2 && w[0] == 'f' && '1' <= w[1] && w[1] <= '9' {
        Some(KeyCode::F(((w[1] as u32) - 48) as u8))
    } else if chars_eq(w, &['f', '1', '0']) {
        Some(KeyCode::F(10))
    } else if chars_eq(w, &['f', '1', '1']) {
        Some(KeyCode::F(11))
    } else if chars_eq(w, &['f', '1', '2']) {
        Some(KeyCode::F(12))
    } else {
        None
    }
}

/// The modifier bit that a one-letter name denotes.
fn modifier_flag_exec(piece: &[char]) -> (r: Option<u8>)
    ensures
        r == modifier_flag(piece@),
{
    if piece.len() == 1 {
        let c = piece[0];
        if c == 'S' || c == 's' {
            Some(1u8)
        } else if c == 'C' || c == 'c' {
            Some(2u8)
        } else if c == 'A' || c == 'a' || c == 'M' || c == 'm' {
            Some(4u8)
        } else if c == 'D' || c == 'd' {
            Some(8u8)
        } else {
            None
        }
    } else {
        None
    }
}

/// Reads the modifier names in `t[0..end]` (see [`fold_modifiers`]).
fn read_modifiers(t: &[char], end: usize) -> (r: Result<u8, KeyChordParseError>)
    requires
        end <= t.len(),
    ensures
        r == fold_modifiers(t@.subrange(0, end as int), 0),
{
    let mut acc: u8 = 0;
    let mut i: usize = 0;
    loop
        invariant
            i <= end <= t.len(),
            fold_modifiers(t@.subrange(0, end as int), 0) == fold_modifiers(
                t@.subrange(i as int, end as int),
                acc,
            ),
        decreases end - i,
    {
        let ghost body = t@.subrange(i as int, end as int);
        let mut k: usize = i;
        while k < end && t[k] != '-'
            invariant
                i <= k <= end <= t.len(),
                forall|j: int| i <= j < k ==> t@[j] != '-',
            decreases end - k,
        {
            k += 1;
        }
        proof {
            if k < end {
                lemma_find_char_some(body, '-', k - i);
            } else {
                lemma_find_char_none(body, '-');
            }
            assert(body.subrange(0, k - i) =~= t@.subrange(i as int, k as int));
        }
        let flag = modifier_flag_exec(&t[i..k]);
        match flag {
            None => {
                return Err(KeyChordParseError::InvalidModifier);
            },
            Some(f) => {
                if acc & f == f {
                    return Err(KeyChordParseError::DuplicateModifier);
                }
                acc = acc | f;
                if k >= end {
                    return Ok(acc);
                }
                assert(body.subrange(k - i + 1, body.len() as int) =~= t@.subrange(
                    k + 1,
                    end as int,
                ));
                i = k + 1;
            },
        }
    }
}

/// The chord that the characters `t` denote (see [`spec_parse_chord`]).
pub fn parse_chord_chars(t: &[char]) -> (r: Result<KeyChord, KeyChordParseError>)
    ensures
        r == spec_parse_chord(t@),
{
    let n = t.len();
    if n == 0 {
        return Err(KeyChordParseError::EmptyString);
    }
    if n == 1 {
        return Ok(KeyChord::from_char(t[0]));
    }
    let mut sp: usize = n - 1;
    while sp > 0 && t[sp - 1] != '-'
        invariant
            sp <= n - 1,
            n == t@.len(),
            split_point(t@, n - 1) == split_point(t@, sp as int),
        decreases sp,
    {
        sp -= 1;
    }
    proof {
        lemma_split_point_bounds(t@, n - 1);
    }
    let bits: u8 = if sp == 0 {
        0
    } else {
        let m = read_modifiers(t, sp - 1);
        assert(t@.subrange(0, sp as int).subrange(0, sp - 1) =~= t@.subrange(0, sp - 1));
        match m {
            Err(e) => {
                return Err(e);
            },
            Ok(b) => b,
        }
    };
    assert(parse_modifiers(t@.subrange(0, sp as int)) == Ok::<u8, KeyChordParseError>(bits));
    let key_str = &t[sp..n];
    let key = if key_str.len() == 1 {
        Some(KeyCode::Char(key_str[0]))
    } else {
        let lowered = chars_to_ascii_lower(key_str);
        key_by_name_exec(lowered.as_slice())
    };
    match key {
        None => Err(KeyChordParseError::InvalidKey),
        Some(k) => Ok(KeyChord::new(k, KeyModifiers { bits })),
    }
}

/// Whether reading `t` as a chord completes (see [`chord_text_ok`]).
pub fn chord_chars_are_ok(t: &[char]) -> (r: bool)
    ensures
        r == chord_text_ok(t@),
{
    t.len() < 2 || (t[t.len() - 1] as u32) < 128
}

/// Whether reading `s` as a chord completes (see [`chord_text_ok`]).
pub fn chord_text_is_ok(s: &str) -> (r: bool)
    ensures
        r == chord_text_ok(s@),
{
    let t = chars_of(s);
    chord_chars_are_ok(t.as_slice())
}

impl KeyChord {
    /// Reads a chord from its text form (see [`spec_parse_chord`]), such as
    /// `f`, `A-a`, `D-A-C-S-Space`, `s-f10` or `Esc`.
    pub fn from_str(s: &str) -> (r: Result<KeyChord, KeyChordParseError>)
        requires
            chord_text_ok(s@),
        ensures
            r == spec_parse_chord(s@),
    {
        let t = chars_of(s);
        parse_chord_chars(t.as_slice())
    }
}


// ---------------------------------------------------------------------------
// Laws of the normal form

/// Bringing a chord into normal form twice gives what once gives.
pub proof fn lemma_normalise_idempotent(c: KeyChord)
    ensures
        c.spec_normalise().spec_normalise() == c.spec_normalise(),
{
    let b = c.mods.bits;
    assert((b | 1u8) | 1u8 == b | 1u8 && (b | 1u8) & 1u8 == 1u8) by (bit_vector);
    if let KeyCode::Char(ch) = c.key {
        if !is_ascii_upper(ch) && has_flag(b, 1) {
            assert(b | 1u8 == b) by (bit_vector)
                requires
                    b & 1u8 == 1u8,
            ;
        }
    }
}

/// Every chord that [`KeyChord::new`] builds is in normal form.
pub proof fn lemma_new_is_normal(key: KeyCode, mods: KeyModifiers)
    ensures
        KeyChord::spec_new(key, mods).spec_normalise() == KeyChord::spec_new(key, mods),
{
    lemma_normalise_idempotent(KeyChord { key, mods });
}

/// An upper-case letter, the same letter in lower case with shift, and the
/// upper-case letter with shift are one chord once normalised; the
/// lower-case letter without shift is another.
pub proof fn lemma_shift_means_upper_case(lower: char, mods: KeyModifiers)
    requires
        'a' <= lower <= 'z',
    ensures
        KeyChord::spec_new(KeyCode::Char(ascii_upper(lower)), mods) == KeyChord::spec_new(
            KeyCode::Char(lower),
            KeyModifiers { bits: mods.bits | 1 },
        ),
        KeyChord::spec_new(KeyCode::Char(ascii_upper(lower)), mods) == KeyChord::spec_new(
            KeyCode::Char(ascii_upper(lower)),
            KeyModifiers { bits: mods.bits | 1 },
        ),
        !has_flag(mods.bits, 1) ==> KeyChord::spec_new(KeyCode::Char(lower), mods)
            != KeyChord::spec_new(KeyCode::Char(ascii_upper(lower)), mods),
{
    let b = mods.bits;
    assert((b | 1u8) | 1u8 == b | 1u8 && (b | 1u8) & 1u8 == 1u8) by (bit_vector);
    assert(is_ascii_upper(ascii_upper(lower)));
}


// ---------------------------------------------------------------------------
// Reading back the modifier prefix

/// The modifier flags named at position `j` and after in a prefix (super,
/// alt, control, shift).
spec fn mask_from(j: int) -> u8 {
    if j == 0 {
        15
    } else if j == 1 {
        7
    } else if j == 2 {
        3
    } else if j == 3 {
        1
    } else {
        0
    }
}

/// The modifier flag named at position `j` of a prefix.
spec fn flag_at(j: int) -> u8 {
    if j == 0 {
        8
    } else if j == 1 {
        4
    } else if j == 2 {
        2
    } else {
        1
    }
}

/// The letter that names the modifier at position `j` of a prefix.
spec fn letter_at(j: int) -> char {
    if j == 0 {
        'D'
    } else if j == 1 {
        'A'
    } else if j == 2 {
        'C'
    } else {
        'S'
    }
}

/// The part of [`modifier_prefix`] from position `j` on.
spec fn prefix_from(bits: u8, j: int) -> Seq<char>
    decreases 4 - j,
{
    if j >= 4 {
        Seq::empty()
    } else {
        (if has_flag(bits, flag_at(j)) {
            seq![letter_at(j), '-']
        } else {
            Seq::empty()
        }) + prefix_from(bits, j + 1)
    }
}

proof fn lemma_flag_step(bits: u8, acc: u8, f: u8, m: u8, m2: u8)
    by (bit_vector)
    requires
        (f == 8 && m == 15 && m2 == 7) || (f == 4 && m == 7 && m2 == 3) || (f == 2 && m == 3 && m2
            == 1) || (f == 1 && m == 1 && m2 == 0),
    ensures
        bits & f == f ==> bits & m == f | (bits & m2) && bits & m != 0,
        bits & f != f ==> bits & m == bits & m2,
        acc & (bits & m) == 0 && bits & f == f ==> acc & f != f && (acc | f) & (bits & m2) == 0 && (
        acc | f) | (bits & m2) == acc | (bits & m),
        acc & (bits & m) == 0 ==> acc & (bits & m2) == 0,
        bits & m2 == 0 && bits & f == f ==> acc | (bits & m) == acc | f,
        bits & 0u8 == 0,
        bits < 16 ==> bits & 15u8 == bits,
        0u8 & bits == 0 && 0u8 | bits == bits,
{
}

proof fn lemma_prefix_from_empty(bits: u8, j: int)
    requires
        0 <= j <= 4,
    ensures
        prefix_from(bits, j).len() == 0 <==> bits & mask_from(j) == 0,
        prefix_from(bits, j).len() % 2 == 0,
    decreases 4 - j,
{
    if j < 4 {
        lemma_flag_step(bits, 0, flag_at(j), mask_from(j), mask_from(j + 1));
        lemma_prefix_from_empty(bits, j + 1);
    } else {
        lemma_flag_step(bits, 0, 8, 15, 7);
    }
}

proof fn lemma_fold_prefix_from(bits: u8, acc: u8, j: int)
    requires
        0 <= j < 4,
        acc & (bits & mask_from(j)) == 0,
        prefix_from(bits, j).len() > 0,
    ensures
        fold_modifiers(prefix_from(bits, j).drop_last(), acc) == Ok::<u8, KeyChordParseError>(
            acc | (bits & mask_from(j)),
        ),
    decreases 4 - j,
{
    let f = flag_at(j);
    let r = prefix_from(bits, j);
    let rest = prefix_from(bits, j + 1);
    lemma_flag_step(bits, acc, f, mask_from(j), mask_from(j + 1));
    lemma_prefix_from_empty(bits, j + 1);
    let l = letter_at(j);
    assert(modifier_flag(seq![l]) == Some(f));
    if has_flag(bits, f) {
        assert(r == seq![l, '-'] + rest);
        if rest.len() == 0 {
            let body = r.drop_last();
            assert(body =~= seq![l]);
            lemma_find_char_none(body, '-');
            assert(body.subrange(0, 1) =~= body);
        } else {
            let body = r.drop_last();
            assert(body =~= seq![l, '-'] + rest.drop_last());
            lemma_find_char_some(body, '-', 1);
            assert(body.subrange(0, 1) =~= seq![l]);
            assert(body.subrange(2, body.len() as int) =~= rest.drop_last());
            lemma_fold_prefix_from(bits, acc | f, j + 1);
        }
    } else {
        assert(r =~= rest);
        lemma_fold_prefix_from(bits, acc, j + 1);
    }
}

/// The prefix of a chord's text reads back as the chord's modifiers, when
/// they are among shift, control, alt and super.
pub(crate) proof fn lemma_parse_modifier_prefix(bits: u8)
    requires
        bits < 16,
    ensures
        parse_modifiers(modifier_prefix(bits)) == Ok::<u8, KeyChordParseError>(bits),
        modifier_prefix(bits).len() == 0 <==> bits == 0,
        modifier_prefix(bits).len() % 2 == 0,
        forall|j: int| 0 <= j < modifier_prefix(bits).len() ==> modifier_prefix(bits)[j] != '>',
        modifier_prefix(bits).len() > 0 ==> modifier_prefix(bits).last() == '-',
{
    reveal_strlit("D-");
    reveal_strlit("A-");
    reveal_strlit("C-");
    reveal_strlit("S-");
    reveal_with_fuel(prefix_from, 5);
    assert(modifier_prefix(bits) =~= prefix_from(bits, 0));
    lemma_flag_step(bits, 0, 8, 15, 7);
    lemma_prefix_from_empty(bits, 0);
    let p = modifier_prefix(bits);
    if p.len() > 0 {
        assert(p.subrange(0, p.len() - 1) =~= p.drop_last());
        lemma_fold_prefix_from(bits, 0, 0);
    }
}


// ---------------------------------------------------------------------------
// Reading back a chord's text

/// Whether a chord's text names it again: only shift, control, alt and super
/// are held, and the key is a character, one of the keys named here, or one
/// of F1 to F12. The other keys are written with the terminal library's
/// names, which are not read.
pub open spec fn has_readable_text(c: KeyChord) -> bool {
    &&& c.mods.bits < 16
    &&& match c.key {
        KeyCode::F(n) => 1 <= n <= 12,
        KeyCode::BackTab => false,
        KeyCode::CapsLock => false,
        KeyCode::ScrollLock => false,
        KeyCode::NumLock => false,
        KeyCode::PrintScreen => false,
        KeyCode::Pause => false,
        KeyCode::Menu => false,
        KeyCode::KeypadBegin => false,
        KeyCode::Media(_) => false,
        KeyCode::Modifier(_) => false,
        _ => true,
    }
}

/// The name of a key whose chord text is readable reads back as the key.
pub(crate) proof fn lemma_key_text_reads(k: KeyCode)
    requires
        has_readable_text(KeyChord { key: k, mods: KeyModifiers { bits: 0 } }),
    ensures
        key_text(k) matches Some(t) && t.len() >= 1 && key_of(t) == Some(k) && (t.len() >= 2
            ==> forall|j: int| 0 <= j < t.len() ==> t[j] != '-' && t[j] != '>') && (t.len() == 1
            ==> k == KeyCode::Char(t[0]) && t[0] != '<') && (k is Char ==> t.len() == 1
            || t.len() >= 2) && (!(k is Char) ==> t.len() >= 2) && ((k matches KeyCode::Char(ch)
            ==> is_ascii_char(ch)) ==> is_ascii_char(t.last())),
{
    match k {
        KeyCode::Null => {
            reveal_strlit("Nul");
            assert(ascii_lower_seq("Nul"@) =~= seq!['n', 'u', 'l']);
        },
        KeyCode::Backspace => {
            reveal_strlit("BS");
            assert(ascii_lower_seq("BS"@) =~= seq!['b', 's']);
        },
        KeyCode::Tab => {
            reveal_strlit("Tab");
            assert(ascii_lower_seq("Tab"@) =~= seq!['t', 'a', 'b']);
        },
        KeyCode::Enter => {
            reveal_strlit("CR");
            assert(ascii_lower_seq("CR"@) =~= seq!['c', 'r']);
        },
        KeyCode::Esc => {
            reveal_strlit("Esc");
            assert(ascii_lower_seq("Esc"@) =~= seq!['e', 's', 'c']);
        },
        KeyCode::Char(c) => {
            if c == ' ' {
                reveal_strlit("Space");
                assert(ascii_lower_seq("Space"@) =~= seq!['s', 'p', 'a', 'c', 'e']);
            } else if c == '<' {
                reveal_strlit("lt");
                assert(ascii_lower_seq("lt"@) =~= seq!['l', 't']);
            } else if c == '\\' {
                reveal_strlit("Bslash");
                assert(ascii_lower_seq("Bslash"@) =~= seq!['b', 's', 'l', 'a', 's', 'h']);
            } else if c == '|' {
                reveal_strlit("Bar");
                assert(ascii_lower_seq("Bar"@) =~= seq!['b', 'a', 'r']);
            }
        },
        KeyCode::Delete => {
            reveal_strlit("Del");
            assert(ascii_lower_seq("Del"@) =~= seq!['d', 'e', 'l']);
        },
        KeyCode::Up => {
            reveal_strlit("Up");
            assert(ascii_lower_seq("Up"@) =~= seq!['u', 'p']);
        },
        KeyCode::Down => {
            reveal_strlit("Down");
            assert(ascii_lower_seq("Down"@) =~= seq!['d', 'o', 'w', 'n']);
        },
        KeyCode::Left => {
            reveal_strlit("Left");
            assert(ascii_lower_seq("Left"@) =~= seq!['l', 'e', 'f', 't']);
        },
        KeyCode::Right => {
            reveal_strlit("Right");
            assert(ascii_lower_seq("Right"@) =~= seq!['r', 'i', 'g', 'h', 't']);
        },
        KeyCode::Home => {
            reveal_strlit("Home");
            assert(ascii_lower_seq("Home"@) =~= seq!['h', 'o', 'm', 'e']);
        },
        KeyCode::End => {
            reveal_strlit("End");
            assert(ascii_lower_seq("End"@) =~= seq!['e', 'n', 'd']);
        },
        KeyCode::PageUp => {
            reveal_strlit("PageUp");
            assert(ascii_lower_seq("PageUp"@) =~= seq!['p', 'a', 'g', 'e', 'u', 'p']);
        },
        KeyCode::PageDown => {
            reveal_strlit("PageDown");
            assert(ascii_lower_seq("PageDown"@) =~= seq!['p', 'a', 'g', 'e', 'd', 'o', 'w', 'n']);
        },
        KeyCode::Insert => {
            reveal_strlit("Insert");
            assert(ascii_lower_seq("Insert"@) =~= seq!['i', 'n', 's', 'e', 'r', 't']);
        },
        KeyCode::F(n) => {
            reveal_strlit("F");
            reveal_with_fuel(decimal, 2);
            let t = "F"@ + decimal(n as nat);
            if n < 10 {
                assert(t =~= seq!['F', digit_char(n as int)]);
                assert(ascii_lower_seq(t) =~= seq!['f', digit_char(n as int)]);
            } else {
                assert(decimal(n as nat) =~= seq!['1', digit_char(n - 10)]);
                assert(t =~= seq!['F', '1', digit_char(n - 10)]);
                assert(ascii_lower_seq(t) =~= seq!['f', '1', digit_char(n - 10)]);
            }
        },
        _ => {},
    }
}


/// Going back over characters that are not `-` does not move the split point.
proof fn lemma_split_point_skip(t: Seq<char>, m: int, end: int)
    requires
        0 <= m <= end <= t.len(),
        forall|j: int| m <= j < end ==> t[j] != '-',
    ensures
        split_point(t, end) == split_point(t, m),
    decreases end - m,
{
    if end > m {
        lemma_split_point_skip(t, m, end - 1);
    }
}

/// A chord in normal form whose text is readable (see [`has_readable_text`])
/// reads back from its text as the same chord.
pub proof fn lemma_chord_text_round_trip(c: KeyChord)
    requires
        c.spec_normalise() == c,
        has_readable_text(c),
        chord_text(c) matches Some(t) && chord_text_ok(t),
    ensures
        chord_text(c) matches Some(t) && spec_parse_chord(t) == Ok::<KeyChord, KeyChordParseError>(
            c,
        ),
{
    let bits = c.mods.bits;
    lemma_parse_modifier_prefix(bits);
    lemma_key_text_reads(c.key);
    let p = modifier_prefix(bits);
    let k = key_text(c.key)->0;
    let t = p + k;
    assert(chord_text(c) == Some(t));
    assert(c.mods == KeyModifiers { bits });
    if t.len() == 1 {
        assert(p.len() == 0);
        assert(t =~= k);
    } else {
        let end = t.len() - 1;
        if k.len() >= 2 {
            lemma_split_point_skip(t, p.len() as int, end);
        }
        if p.len() > 0 {
            assert(t[p.len() - 1] == p.last());
        }
        assert(split_point(t, end) == p.len());
        assert(t.subrange(0, p.len() as int) =~= p);
        assert(t.subrange(p.len() as int, t.len() as int) =~= k);
    }
}


/// A text of two or more characters with no `-` reads as the key its
/// lower-cased form names, with no modifier.
proof fn lemma_plain_name(t: Seq<char>)
    requires
        t.len() >= 2,
        forall|j: int| 0 <= j < t.len() ==> ascii_lower_seq(t)[j] != '-',
    ensures
        spec_parse_chord(t) == match key_by_name(ascii_lower_seq(t)) {
            Some(k) => Ok::<KeyChord, KeyChordParseError>(KeyChord::spec_new(k, KeyModifiers { bits: 0 })),
            None => Err(KeyChordParseError::InvalidKey),
        },
{
    assert forall|j: int| 0 <= j < t.len() - 1 implies t[j] != '-' by {
        assert(ascii_lower_seq(t)[j] == ascii_lower(t[j]));
    }
    lemma_split_point_skip(t, 0, t.len() - 1);
    assert(t.subrange(0, 0) =~= Seq::<char>::empty());
    assert(t.subrange(0, t.len() as int) =~= t);
}

/// A text whose lower-cased form is the name `w` of the key `k` reads as `k`
/// with no modifier.
proof fn lemma_named_key(t: Seq<char>, w: Seq<char>, k: KeyCode)
    requires
        ascii_lower_seq(t) == w,
        w.len() >= 2,
        forall|j: int| 0 <= j < w.len() ==> w[j] != '-',
        key_by_name(w) == Some(k),
        k matches KeyCode::Char(c) ==> !is_ascii_upper(c),
    ensures
        spec_parse_chord(t) == Ok::<KeyChord, KeyChordParseError>(
            KeyChord { key: k, mods: KeyModifiers { bits: 0 } },
        ),
{
    lemma_plain_name(t);
    assert(0u8 & 1u8 == 0u8) by (bit_vector);
}

/// Every key name that a chord's text may use, in any letter case, reads
/// as its key with no modifier: `nul`, `bs`, `tab`, `cr`, `return`, `enter`,
/// `eol`, `esc`, `space`, `lt`, `bslash`, `bar`, `del`, `up`, `down`, `left`,
/// `right`, `home`, `end`, `pageup`, `pagedown`, `insert` and `f1` to `f12`.
pub proof fn lemma_key_names(t: Seq<char>)
    ensures
        ascii_lower_seq(t) == seq!['n', 'u', 'l'] ==> spec_parse_chord(t) == Ok::<KeyChord, KeyChordParseError>(
            KeyChord { key: KeyCode::Null, mods: KeyModifiers { bits: 0 } },
        ),
        ascii_lower_seq(t) == seq!['b', 's'] ==> spec_parse_chord(t) == Ok::<KeyChord, KeyChordParseError>(
            KeyChord { key: KeyCode::Backspace, mods: KeyModifiers { bits: 0 } },
        ),
        ascii_lower_seq(t) == seq!['t', 'a', 'b'] ==> spec_parse_chord(t) == Ok::<KeyChord, KeyChordParseError>(
            KeyChord { key: KeyCode::Tab, mods: KeyModifiers { bits: 0 } },
        ),
        ascii_lower_seq(t) == seq!['c', 'r'] ==> spec_parse_chord(t) == Ok::<KeyChord, KeyChordParseError>(
            KeyChord { key: KeyCode::Enter, mods: KeyModifiers { bits: 0 } },
        ),
        ascii_lower_seq(t) == seq!['r', 'e', 't', 'u', 'r', 'n'] ==> spec_parse_chord(t) == Ok::<KeyChord, KeyChordParseError>(
            KeyChord { key: KeyCode::Enter, mods: KeyModifiers { bits: 0 } },
        ),
        ascii_lower_seq(t) == seq!['e', 'n', 't', 'e', 'r'] ==> spec_parse_chord(t) == Ok::<KeyChord, KeyChordParseError>(
            KeyChord { key: KeyCode::Enter, mods: KeyModifiers { bits: 0 } },
        ),
        ascii_lower_seq(t) == seq!['e', 'o', 'l'] ==> spec_parse_chord(t) == Ok::<KeyChord, KeyChordParseError>(
            KeyChord { key: KeyCode::Enter, mods: KeyModifiers { bits: 0 } },
        ),
        ascii_lower_seq(t) == seq!['e', 's', 'c'] ==> spec_parse_chord(t) == Ok::<KeyChord, KeyChordParseError>(
            KeyChord { key: KeyCode::Esc, mods: KeyModifiers { bits: 0 } },
        ),
        ascii_lower_seq(t) == seq!['s', 'p', 'a', 'c', 'e'] ==> spec_parse_chord(t) == Ok::<KeyChord, KeyChordParseError>(
            KeyChord { key: KeyCode::Char(' '), mods: KeyModifiers { bits: 0 } },
        ),
        ascii_lower_seq(t) == seq!['l', 't'] ==> spec_parse_chord(t) == Ok::<KeyChord, KeyChordParseError>(
            KeyChord { key: KeyCode::Char('<'), mods: KeyModifiers { bits: 0 } },
        ),
        ascii_lower_seq(t) == seq!['b', 's', 'l', 'a', 's', 'h'] ==> spec_parse_chord(t) == Ok::<KeyChord, KeyChordParseError>(
            KeyChord { key: KeyCode::Char('\\'), mods: KeyModifiers { bits: 0 } },
        ),
        ascii_lower_seq(t) == seq!['b', 'a', 'r'] ==> spec_parse_chord(t) == Ok::<KeyChord, KeyChordParseError>(
            KeyChord { key: KeyCode::Char('|'), mods: KeyModifiers { bits: 0 } },
        ),
        ascii_lower_seq(t) == seq!['d', 'e', 'l'] ==> spec_parse_chord(t) == Ok::<KeyChord, KeyChordParseError>(
            KeyChord { key: KeyCode::Delete, mods: KeyModifiers { bits: 0 } },
        ),
        ascii_lower_seq(t) == seq!['u', 'p'] ==> spec_parse_chord(t) == Ok::<KeyChord, KeyChordParseError>(
            KeyChord { key: KeyCode::Up, mods: KeyModifiers { bits: 0 } },
        ),
        ascii_lower_seq(t) == seq!['d', 'o', 'w', 'n'] ==> spec_parse_chord(t) == Ok::<KeyChord, KeyChordParseError>(
            KeyChord { key: KeyCode::Down, mods: KeyModifiers { bits: 0 } },
        ),
        ascii_lower_seq(t) == seq!['l', 'e', 'f', 't'] ==> spec_parse_chord(t) == Ok::<KeyChord, KeyChordParseError>(
            KeyChord { key: KeyCode::Left, mods: KeyModifiers { bits: 0 } },
        ),
        ascii_lower_seq(t) == seq!['r', 'i', 'g', 'h', 't'] ==> spec_parse_chord(t) == Ok::<KeyChord, KeyChordParseError>(
            KeyChord { key: KeyCode::Right, mods: KeyModifiers { bits: 0 } },
        ),
        ascii_lower_seq(t) == seq!['h', 'o', 'm', 'e'] ==> spec_parse_chord(t) == Ok::<KeyChord, KeyChordParseError>(
            KeyChord { key: KeyCode::Home, mods: KeyModifiers { bits: 0 } },
        ),
        ascii_lower_seq(t) == seq!['e', 'n', 'd'] ==> spec_parse_chord(t) == Ok::<KeyChord, KeyChordParseError>(
            KeyChord { key: KeyCode::End, mods: KeyModifiers { bits: 0 } },
        ),
        ascii_lower_seq(t) == seq!['p', 'a', 'g', 'e', 'u', 'p'] ==> spec_parse_chord(t) == Ok::<KeyChord, KeyChordParseError>(
            KeyChord { key: KeyCode::PageUp, mods: KeyModifiers { bits: 0 } },
        ),
        ascii_lower_seq(t) == seq!['p', 'a', 'g', 'e', 'd', 'o', 'w', 'n'] ==> spec_parse_chord(t) == Ok::<KeyChord, KeyChordParseError>(
            KeyChord { key: KeyCode::PageDown, mods: KeyModifiers { bits: 0 } },
        ),
        ascii_lower_seq(t) == seq!['i', 'n', 's', 'e', 'r', 't'] ==> spec_parse_chord(t) == Ok::<KeyChord, KeyChordParseError>(
            KeyChord { key: KeyCode::Insert, mods: KeyModifiers { bits: 0 } },
        ),
        ascii_lower_seq(t) == seq!['f', '1'] ==> spec_parse_chord(t) == Ok::<KeyChord, KeyChordParseError>(
            KeyChord { key: KeyCode::F(1), mods: KeyModifiers { bits: 0 } },
        ),
        ascii_lower_seq(t) == seq!['f', '2'] ==> spec_parse_chord(t) == Ok::<KeyChord, KeyChordParseError>(
            KeyChord { key: KeyCode::F(2), mods: KeyModifiers { bits: 0 } },
        ),
        ascii_lower_seq(t) == seq!['f', '3'] ==> spec_parse_chord(t) == Ok::<KeyChord, KeyChordParseError>(
            KeyChord { key: KeyCode::F(3), mods: KeyModifiers { bits: 0 } },
        ),
        ascii_lower_seq(t) == seq!['f', '4'] ==> spec_parse_chord(t) == Ok::<KeyChord, KeyChordParseError>(
            KeyChord { key: KeyCode::F(4), mods: KeyModifiers { bits: 0 } },
        ),
        ascii_lower_seq(t) == seq!['f', '5'] ==> spec_parse_chord(t) == Ok::<KeyChord, KeyChordParseError>(
            KeyChord { key: KeyCode::F(5), mods: KeyModifiers { bits: 0 } },
        ),
        ascii_lower_seq(t) == seq!['f', '6'] ==> spec_parse_chord(t) == Ok::<KeyChord, KeyChordParseError>(
            KeyChord { key: KeyCode::F(6), mods: KeyModifiers { bits: 0 } },
        ),
        ascii_lower_seq(t) == seq!['f', '7'] ==> spec_parse_chord(t) == Ok::<KeyChord, KeyChordParseError>(
            KeyChord { key: KeyCode::F(7), mods: KeyModifiers { bits: 0 } },
        ),
        ascii_lower_seq(t) == seq!['f', '8'] ==> spec_parse_chord(t) == Ok::<KeyChord, KeyChordParseError>(
            KeyChord { key: KeyCode::F(8), mods: KeyModifiers { bits: 0 } },
        ),
        ascii_lower_seq(t) == seq!['f', '9'] ==> spec_parse_chord(t) == Ok::<KeyChord, KeyChordParseError>(
            KeyChord { key: KeyCode::F(9), mods: KeyModifiers { bits: 0 } },
        ),
        ascii_lower_seq(t) == seq!['f', '1', '0'] ==> spec_parse_chord(t) == Ok::<KeyChord, KeyChordParseError>(
            KeyChord { key: KeyCode::F(10), mods: KeyModifiers { bits: 0 } },
        ),
        ascii_lower_seq(t) == seq!['f', '1', '1'] ==> spec_parse_chord(t) == Ok::<KeyChord, KeyChordParseError>(
            KeyChord { key: KeyCode::F(11), mods: KeyModifiers { bits: 0 } },
        ),
        ascii_lower_seq(t) == seq!['f', '1', '2'] ==> spec_parse_chord(t) == Ok::<KeyChord, KeyChordParseError>(
            KeyChord { key: KeyCode::F(12), mods: KeyModifiers { bits: 0 } },
        ),
{
    if ascii_lower_seq(t) == seq!['n', 'u', 'l'] {
        lemma_named_key(t, seq!['n', 'u', 'l'], KeyCode::Null);
    }
    if ascii_lower_seq(t) == seq!['b', 's'] {
        lemma_named_key(t, seq!['b', 's'], KeyCode::Backspace);
    }
    if ascii_lower_seq(t) == seq!['t', 'a', 'b'] {
        lemma_named_key(t, seq!['t', 'a', 'b'], KeyCode::Tab);
    }
    if ascii_lower_seq(t) == seq!['c', 'r'] {
        lemma_named_key(t, seq!['c', 'r'], KeyCode::Enter);
    }
    if ascii_lower_seq(t) == seq!['r', 'e', 't', 'u', 'r', 'n'] {
        lemma_named_key(t, seq!['r', 'e', 't', 'u', 'r', 'n'], KeyCode::Enter);
    }
    if ascii_lower_seq(t) == seq!['e', 'n', 't', 'e', 'r'] {
        lemma_named_key(t, seq!['e', 'n', 't', 'e', 'r'], KeyCode::Enter);
    }
    if ascii_lower_seq(t) == seq!['e', 'o', 'l'] {
        lemma_named_key(t, seq!['e', 'o', 'l'], KeyCode::Enter);
    }
    if ascii_lower_seq(t) == seq!['e', 's', 'c'] {
        lemma_named_key(t, seq!['e', 's', 'c'], KeyCode::Esc);
    }
    if ascii_lower_seq(t) == seq!['s', 'p', 'a', 'c', 'e'] {
        lemma_named_key(t, seq!['s', 'p', 'a', 'c', 'e'], KeyCode::Char(' '));
    }
    if ascii_lower_seq(t) == seq!['l', 't'] {
        lemma_named_key(t, seq!['l', 't'], KeyCode::Char('<'));
    }
    if ascii_lower_seq(t) == seq!['b', 's', 'l', 'a', 's', 'h'] {
        lemma_named_key(t, seq!['b', 's', 'l', 'a', 's', 'h'], KeyCode::Char('\\'));
    }
    if ascii_lower_seq(t) == seq!['b', 'a', 'r'] {
        lemma_named_key(t, seq!['b', 'a', 'r'], KeyCode::Char('|'));
    }
    if ascii_lower_seq(t) == seq!['d', 'e', 'l'] {
        lemma_named_key(t, seq!['d', 'e', 'l'], KeyCode::Delete);
    }
    if ascii_lower_seq(t) == seq!['u', 'p'] {
        lemma_named_key(t, seq!['u', 'p'], KeyCode::Up);
    }
    if ascii_lower_seq(t) == seq!['d', 'o', 'w', 'n'] {
        lemma_named_key(t, seq!['d', 'o', 'w', 'n'], KeyCode::Down);
    }
    if ascii_lower_seq(t) == seq!['l', 'e', 'f', 't'] {
        lemma_named_key(t, seq!['l', 'e', 'f', 't'], KeyCode::Left);
    }
    if ascii_lower_seq(t) == seq!['r', 'i', 'g', 'h', 't'] {
        lemma_named_key(t, seq!['r', 'i', 'g', 'h', 't'], KeyCode::Right);
    }
    if ascii_lower_seq(t) == seq!['h', 'o', 'm', 'e'] {
        lemma_named_key(t, seq!['h', 'o', 'm', 'e'], KeyCode::Home);
    }
    if ascii_lower_seq(t) == seq!['e', 'n', 'd'] {
        lemma_named_key(t, seq!['e', 'n', 'd'], KeyCode::End);
    }
    if ascii_lower_seq(t) == seq!['p', 'a', 'g', 'e', 'u', 'p'] {
        lemma_named_key(t, seq!['p', 'a', 'g', 'e', 'u', 'p'], KeyCode::PageUp);
    }
    if ascii_lower_seq(t) == seq!['p', 'a', 'g', 'e', 'd', 'o', 'w', 'n'] {
        lemma_named_key(t, seq!['p', 'a', 'g', 'e', 'd', 'o', 'w', 'n'], KeyCode::PageDown);
    }
    if ascii_lower_seq(t) == seq!['i', 'n', 's', 'e', 'r', 't'] {
        lemma_named_key(t, seq!['i', 'n', 's', 'e', 'r', 't'], KeyCode::Insert);
    }
    if ascii_lower_seq(t) == seq!['f', '1'] {
        lemma_named_key(t, seq!['f', '1'], KeyCode::F(1));
    }
    if ascii_lower_seq(t) == seq!['f', '2'] {
        lemma_named_key(t, seq!['f', '2'], KeyCode::F(2));
    }
    if ascii_lower_seq(t) == seq!['f', '3'] {
        lemma_named_key(t, seq!['f', '3'], KeyCode::F(3));
    }
    if ascii_lower_seq(t) == seq!['f', '4'] {
        lemma_named_key(t, seq!['f', '4'], KeyCode::F(4));
    }
    if ascii_lower_seq(t) == seq!['f', '5'] {
        lemma_named_key(t, seq!['f', '5'], KeyCode::F(5));
    }
    if ascii_lower_seq(t) == seq!['f', '6'] {
        lemma_named_key(t, seq!['f', '6'], KeyCode::F(6));
    }
    if ascii_lower_seq(t) == seq!['f', '7'] {
        lemma_named_key(t, seq!['f', '7'], KeyCode::F(7));
    }
    if ascii_lower_seq(t) == seq!['f', '8'] {
        lemma_named_key(t, seq!['f', '8'], KeyCode::F(8));
    }
    if ascii_lower_seq(t) == seq!['f', '9'] {
        lemma_named_key(t, seq!['f', '9'], KeyCode::F(9));
    }
    if ascii_lower_seq(t) == seq!['f', '1', '0'] {
        lemma_named_key(t, seq!['f', '1', '0'], KeyCode::F(10));
    }
    if ascii_lower_seq(t) == seq!['f', '1', '1'] {
        lemma_named_key(t, seq!['f', '1', '1'], KeyCode::F(11));
    }
    if ascii_lower_seq(t) == seq!['f', '1', '2'] {
        lemma_named_key(t, seq!['f', '1', '2'], KeyCode::F(12));
    }
}



/// The name each key is written with: the names of its own for the keys
/// that have one, and the terminal library's names for the others, each key
/// its own name.
pub proof fn lemma_key_texts()
    ensures
        key_text(KeyCode::Null) == Some("Nul"@),
        key_text(KeyCode::Backspace) == Some("BS"@),
        key_text(KeyCode::Tab) == Some("Tab"@),
        key_text(KeyCode::Enter) == Some("CR"@),
        key_text(KeyCode::Esc) == Some("Esc"@),
        key_text(KeyCode::Char(' ')) == Some("Space"@),
        key_text(KeyCode::Char('<')) == Some("lt"@),
        key_text(KeyCode::Char('\\')) == Some("Bslash"@),
        key_text(KeyCode::Char('|')) == Some("Bar"@),
        key_text(KeyCode::Delete) == Some("Del"@),
        key_text(KeyCode::Up) == Some("Up"@),
        key_text(KeyCode::Down) == Some("Down"@),
        key_text(KeyCode::Left) == Some("Left"@),
        key_text(KeyCode::Right) == Some("Right"@),
        key_text(KeyCode::Home) == Some("Home"@),
        key_text(KeyCode::End) == Some("End"@),
        key_text(KeyCode::PageUp) == Some("PageUp"@),
        key_text(KeyCode::PageDown) == Some("PageDown"@),
        key_text(KeyCode::Insert) == Some("Insert"@),
        key_text(KeyCode::BackTab) == Some("Back Tab"@),
        key_text(KeyCode::CapsLock) == Some("Caps Lock"@),
        key_text(KeyCode::ScrollLock) == Some("Scroll Lock"@),
        key_text(KeyCode::NumLock) == Some("Num Lock"@),
        key_text(KeyCode::PrintScreen) == Some("Print Screen"@),
        key_text(KeyCode::Pause) == Some("Pause"@),
        key_text(KeyCode::Menu) == Some("Menu"@),
        key_text(KeyCode::KeypadBegin) == Some("Begin"@),
        key_text(KeyCode::Media(MediaKeyCode::Play)) == Some("Play"@),
        key_text(KeyCode::Media(MediaKeyCode::Pause)) == Some("Pause"@),
        key_text(KeyCode::Media(MediaKeyCode::PlayPause)) == Some("Play/Pause"@),
        key_text(KeyCode::Media(MediaKeyCode::Reverse)) == Some("Reverse"@),
        key_text(KeyCode::Media(MediaKeyCode::Stop)) == Some("Stop"@),
        key_text(KeyCode::Media(MediaKeyCode::FastForward)) == Some("Fast Forward"@),
        key_text(KeyCode::Media(MediaKeyCode::Rewind)) == Some("Rewind"@),
        key_text(KeyCode::Media(MediaKeyCode::TrackNext)) == Some("Next Track"@),
        key_text(KeyCode::Media(MediaKeyCode::TrackPrevious)) == Some("Previous Track"@),
        key_text(KeyCode::Media(MediaKeyCode::Record)) == Some("Record"@),
        key_text(KeyCode::Media(MediaKeyCode::LowerVolume)) == Some("Lower Volume"@),
        key_text(KeyCode::Media(MediaKeyCode::RaiseVolume)) == Some("Raise Volume"@),
        key_text(KeyCode::Media(MediaKeyCode::MuteVolume)) == Some("Mute Volume"@),
        key_text(KeyCode::Modifier(ModifierKeyCode::LeftShift)) == Some("Left Shift"@),
        key_text(KeyCode::Modifier(ModifierKeyCode::LeftHyper)) == Some("Left Hyper"@),
        key_text(KeyCode::Modifier(ModifierKeyCode::LeftMeta)) == Some("Left Meta"@),
        key_text(KeyCode::Modifier(ModifierKeyCode::RightShift)) == Some("Right Shift"@),
        key_text(KeyCode::Modifier(ModifierKeyCode::RightHyper)) == Some("Right Hyper"@),
        key_text(KeyCode::Modifier(ModifierKeyCode::RightMeta)) == Some("Right Meta"@),
        key_text(KeyCode::Modifier(ModifierKeyCode::IsoLevel3Shift)) == Some("Iso Level 3 Shift"@),
        key_text(KeyCode::Modifier(ModifierKeyCode::IsoLevel5Shift)) == Some("Iso Level 5 Shift"@),
        forall|n: u8| key_text(KeyCode::F(n)) == Some("F"@ + decimal(n as nat)),
        forall|c: char|
            c != ' ' && c != '<' && c != '\\' && c != '|' ==> key_text(KeyCode::Char(c)) == Some(seq![c]),
{
}


/// A chord without modifiers is written as its key's name alone.
pub proof fn lemma_plain_chord_text(k: KeyCode)
    ensures
        chord_text(KeyChord { key: k, mods: KeyModifiers { bits: 0 } }) == key_text(k),
{
    assert(0u8 & 8u8 == 0u8 && 0u8 & 4u8 == 0u8 && 0u8 & 2u8 == 0u8 && 0u8 & 1u8 == 0u8) by (bit_vector);
    assert(modifier_prefix(0) =~= Seq::<char>::empty());
    if let Some(t) = key_text(k) {
        assert(Seq::<char>::empty() + t =~= t);
    }
}

} // verus!
