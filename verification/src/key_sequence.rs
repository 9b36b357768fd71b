//! A sequence of key chords, written as text such as `gg`, `<C-w>h` or
//! `<Space><C-w><Left>h<Esc>`: a chord of one character stands by itself, a
//! longer chord is enclosed in `<` and `>`.

use vstd::prelude::*;

use crate::key_chord::{
    chord_chars_are_ok, chord_text, chord_text_fits, chord_text_ok, has_readable_text, key_text, lemma_chord_text_round_trip,
    lemma_key_text_reads, lemma_parse_modifier_prefix, modifier_prefix, parse_chord_chars,
    spec_parse_chord, KeyChord, KeyChordParseError, KeyModifiers, KeyCode,
};
use crate::text::{
    chars_of, find_char, is_ascii_char, lemma_find_char_bounds, lemma_find_char_none,
    lemma_find_char_some,
};

verus! {

/// A small vector of chords (`smallvec::SmallVec<[KeyChord; 4]>`), which keeps
/// up to four chords without allocating. Verus does not accept the vector's
/// type declared on its own (its parameter is bounded by the crate's `Array`
/// trait), so it is held here, hidden, and reached through the functions below.
#[verifier::external_body]
#[derive(Debug, PartialEq, Eq, PartialOrd, Ord, Hash)]
pub struct ChordBuffer {
    inner: smallvec::SmallVec<[KeyChord; 4]>,
}

/// The chords a [`ChordBuffer`] holds, in order.
pub uninterp spec fn chord_buffer(v: ChordBuffer) -> Seq<KeyChord>;

/// `SmallVec::new`: an empty vector.
#[verifier::external_body]
fn chord_buffer_new() -> (v: ChordBuffer)
    ensures
        chord_buffer(v) == Seq::<KeyChord>::empty(),
{
    ChordBuffer { inner: smallvec::SmallVec::new() }
}

/// `SmallVec::from_vec`: the vector's chords, in order.
#[verifier::external_body]
fn chord_buffer_from_vec(vec: Vec<KeyChord>) -> (v: ChordBuffer)
    ensures
        chord_buffer(v) == vec@,
{
    ChordBuffer { inner: smallvec::SmallVec::from_vec(vec) }
}

/// `SmallVec::from_slice`: a copy of the slice's chords, in order.
#[verifier::external_body]
fn chord_buffer_from_slice(slice: &[KeyChord]) -> (v: ChordBuffer)
    ensures
        chord_buffer(v) == slice@,
{
    ChordBuffer { inner: smallvec::SmallVec::from_slice(slice) }
}

/// `SmallVec::push`: appends one chord at the end.
#[verifier::external_body]
fn chord_buffer_push(v: &mut ChordBuffer, c: KeyChord)
    ensures
        chord_buffer(*final(v)) == chord_buffer(*old(v)).push(c),
{
    v.inner.push(c)
}

/// `SmallVec::as_slice`: the chords, in order.
#[verifier::external_body]
fn chord_buffer_as_slice(v: &ChordBuffer) -> (s: &[KeyChord])
    ensures
        s@ == chord_buffer(*v),
{
    v.inner.as_slice()
}

/// `SmallVec::clone`: a vector of the same chords; cloning a chord copies it.
#[verifier::external_body]
fn chord_buffer_clone(v: &ChordBuffer) -> (r: ChordBuffer)
    ensures
        chord_buffer(r) == chord_buffer(*v),
{
    ChordBuffer { inner: v.inner.clone() }
}

impl Clone for ChordBuffer {
    fn clone(&self) -> (r: ChordBuffer)
        ensures
            chord_buffer(r) == chord_buffer(*self),
    {
        chord_buffer_clone(self)
    }
}

/// A sequence of key chords, pressed one after the other.
#[derive(Debug, Clone, PartialEq, Eq, PartialOrd, Ord, Hash)]
pub struct KeySequence(ChordBuffer);

impl View for KeySequence {
    type V = Seq<KeyChord>;

    closed spec fn view(&self) -> Seq<KeyChord> {
        chord_buffer(self.0)
    }
}

impl KeySequence {
    /// The sequence of the vector's chords, in order.
    pub fn from_vec(vec: Vec<KeyChord>) -> (r: KeySequence)
        ensures
            r@ == vec@,
    {
        KeySequence(chord_buffer_from_vec(vec))
    }

    /// The sequence of the slice's chords, in order.
    pub fn from_slice(slice: &[KeyChord]) -> (r: KeySequence)
        ensures
            r@ == slice@,
    {
        KeySequence(chord_buffer_from_slice(slice))
    }

    /// The chords, in order.
    pub fn as_slice(&self) -> (r: &[KeyChord])
        ensures
            r@ == self@,
    {
        chord_buffer_as_slice(&self.0)
    }

    /// Number of chords.
    pub fn len(&self) -> (r: usize)
        ensures
            r == self@.len(),
    {
        self.as_slice().len()
    }

    /// The chord at `index`, if there is one.
    pub fn get(&self, index: usize) -> (r: Option<&KeyChord>)
        ensures
            index < self@.len() ==> r == Some(&self@[index as int]),
            index >= self@.len() ==> r is None,
    {
        let s = self.as_slice();
        if index < s.len() {
            Some(&s[index])
        } else {
            None
        }
    }

    /// A sequence of the same chords.
    pub fn duplicate(&self) -> (r: KeySequence)
        ensures
            r@ == self@,
    {
        KeySequence(chord_buffer_clone(&self.0))
    }
}

// ---------------------------------------------------------------------------
// Text form

/// A chord as it stands in a sequence: its text alone if that is one
/// character, else enclosed in `<` and `>`.
pub open spec fn chord_in_sequence(c: KeyChord) -> Option<Seq<char>> {
    match chord_text(c) {
        Some(t) => Some(
            if t.len() == 1 {
                t
            } else {
                seq!['<'] + t + seq!['>']
            },
        ),
        None => None,
    }
}

/// The text of a sequence of chords; `None` if a chord's text is not known
/// (see [`chord_text`]).
pub open spec fn sequence_text(s: Seq<KeyChord>) -> Option<Seq<char>>
    decreases s.len(),
{
    if s.len() == 0 {
        Some(Seq::empty())
    } else {
        match (sequence_text(s.drop_last()), chord_in_sequence(s.last())) {
            (Some(a), Some(b)) => Some(a + b),
            _ => None,
        }
    }
}

/// A chord's text `t` as it stands in a sequence: alone if it is one
/// character, else enclosed in `<` and `>`.
pub open spec fn in_sequence(t: Seq<char>) -> Seq<char> {
    if t.len() == 1 {
        t
    } else {
        seq!['<'] + t + seq!['>']
    }
}

/// The chord texts `texts`, each as it stands in a sequence, one after
/// another.
pub open spec fn joined(texts: Seq<Seq<char>>) -> Seq<char>
    decreases texts.len(),
{
    if texts.len() == 0 {
        Seq::empty()
    } else {
        joined(texts.drop_last()) + in_sequence(texts.last())
    }
}

impl KeySequence {
    /// The text of the sequence (see [`sequence_text`]): the text of each
    /// chord (see [`chord_text_fits`]), each as it stands in a sequence.
    pub fn to_string(&self) -> (r: String)
        ensures
            sequence_text(self@) matches Some(t) ==> r@ == t,
            exists|texts: Seq<Seq<char>>|
                texts.len() == self@.len() && (forall|i: int|
                    0 <= i < texts.len() ==> chord_text_fits(self@[i], #[trigger] texts[i]))
                    && r@ == joined(texts),
    {
        let chords = self.as_slice();
        let mut out = String::new();
        let mut i: usize = 0;
        let ghost mut texts: Seq<Seq<char>> = Seq::empty();
        while i < chords.len()
            invariant
                i <= chords@.len(),
                chords@ == self@,
                sequence_text(chords@.subrange(0, i as int)) matches Some(t) ==> out@ == t,
                texts.len() == i,
                forall|j: int| 0 <= j < i ==> chord_text_fits(chords@[j], #[trigger] texts[j]),
                out@ == joined(texts),
            decreases chords.len() - i,
        {
            let text = chords[i].to_string();
            let ghost before = texts;
            if text.as_str().unicode_len() == 1 {
                out.append(text.as_str());
            } else {
                out.append("<");
                out.append(text.as_str());
                out.append(">");
            }
            proof {
                let prefix = chords@.subrange(0, i + 1);
                assert(prefix.drop_last() =~= chords@.subrange(0, i as int));
                assert(prefix.last() == chords@[i as int]);
                reveal_strlit("<");
                reveal_strlit(">");
                texts = before.push(text@);
                assert(texts.drop_last() =~= before);
                assert(forall|j: int| 0 <= j < i ==> texts[j] == before[j]);
            }
            i += 1;
        }
        assert(chords@.subrange(0, chords@.len() as int) =~= self@);
        out
    }
}

// ---------------------------------------------------------------------------
// Reading the text form

/// `Ok` of `prefix` followed by the chords of `r`, or the error of `r`.
pub open spec fn prepend_chords(prefix: Seq<KeyChord>, r: Result<Seq<KeyChord>, KeyChordParseError>) -> Result<
    Seq<KeyChord>,
    KeyChordParseError,
> {
    match r {
        Ok(rest) => Ok(prefix + rest),
        Err(e) => Err(e),
    }
}

/// The chords that the text `s` denotes, read from left to right: `<`
/// opens a chord that runs up to the next `>`, any other character is a chord
/// of itself. The first chord that cannot be read is the error; a `<` without
/// a `>` after it is [`KeyChordParseError::UnclosedTag`].
pub open spec fn spec_parse_sequence(s: Seq<char>) -> Result<Seq<KeyChord>, KeyChordParseError>
    decreases s.len(),
{
    if s.len() == 0 {
        Ok(Seq::empty())
    } else if s[0] == '<' {
        match find_char(s.drop_first(), '>') {
            None => Err(KeyChordParseError::UnclosedTag),
            Some(j) => {
                proof {
                    lemma_find_char_bounds(s.drop_first(), '>');
                }
                match spec_parse_chord(s.subrange(1, j + 1)) {
                    Err(e) => Err(e),
                    Ok(c) => prepend_chords(
                        seq![c],
                        spec_parse_sequence(s.subrange(j + 2, s.len() as int)),
                    ),
                }
            },
        }
    } else {
        prepend_chords(
            seq![KeyChord::spec_new(KeyCode::Char(s[0]), KeyModifiers { bits: 0 })],
            spec_parse_sequence(s.drop_first()),
        )
    }
}

/// Whether reading `s` completes: a character outside `<` `>` must be one
/// byte long (one byte is cut out for it), and each enclosed chord that is
/// reached must satisfy [`chord_text_ok`].
pub open spec fn sequence_text_ok(s: Seq<char>) -> bool
    decreases s.len(),
{
    if s.len() == 0 {
        true
    } else if s[0] == '<' {
        match find_char(s.drop_first(), '>') {
            None => true,
            Some(j) => {
                proof {
                    lemma_find_char_bounds(s.drop_first(), '>');
                }
                let content = s.subrange(1, j + 1);
                chord_text_ok(content) && (spec_parse_chord(content) is Err || sequence_text_ok(
                    s.subrange(j + 2, s.len() as int),
                ))
            },
        }
    } else {
        is_ascii_char(s[0]) && sequence_text_ok(s.drop_first())
    }
}

/// The chords that the characters `t` denote (see [`spec_parse_sequence`]).
pub fn parse_sequence_chars(t: &[char]) -> (r: Result<KeySequence, KeyChordParseError>)
    ensures
        match r {
            Ok(seq) => spec_parse_sequence(t@) == Ok::<Seq<KeyChord>, KeyChordParseError>(seq@),
            Err(e) => spec_parse_sequence(t@) == Err::<Seq<KeyChord>, KeyChordParseError>(e),
        },
{
    let n = t.len();
    let mut chords = chord_buffer_new();
    let mut i: usize = 0;
    assert(t@.subrange(0, n as int) =~= t@);
    while i < n
        invariant
            i <= n == t@.len(),
            spec_parse_sequence(t@) == prepend_chords(
                chord_buffer(chords),
                spec_parse_sequence(t@.subrange(i as int, n as int)),
            ),
        decreases n - i,
    {
        let ghost rest = t@.subrange(i as int, n as int);
        let ghost acc = chord_buffer(chords);
        if t[i] == '<' {
            let mut j: usize = i + 1;
            while j < n && t[j] != '>'
                invariant
                    i < j <= n == t@.len(),
                    forall|m: int| i < m < j ==> t@[m] != '>',
                decreases n - j,
            {
                j += 1;
            }
            if j >= n {
                proof {
                    assert forall|m: int| 0 <= m < rest.drop_first().len() implies rest.drop_first()[m]
                        != '>' by {
                        assert(rest.drop_first()[m] == t@[i + 1 + m]);
                    }
                    lemma_find_char_none(rest.drop_first(), '>');
                }
                return Err(KeyChordParseError::UnclosedTag);
            }
            proof {
                assert forall|m: int| 0 <= m < j - i - 1 implies rest.drop_first()[m] != '>' by {
                    assert(rest.drop_first()[m] == t@[i + 1 + m]);
                }
                assert(rest.drop_first()[j - i - 1] == t@[j as int]);
                lemma_find_char_some(rest.drop_first(), '>', j - i - 1);
                assert(rest.subrange(1, j - i) =~= t@.subrange(i + 1, j as int));
                assert(rest.subrange(j - i + 1, rest.len() as int) =~= t@.subrange(
                    j + 1,
                    n as int,
                ));
            }
            match parse_chord_chars(&t[i + 1..j]) {
                Err(e) => {
                    return Err(e);
                },
                Ok(c) => {
                    chord_buffer_push(&mut chords, c);
                    assert(acc + (seq![c] + spec_parse_sequence(t@.subrange(j + 1, n as int))->Ok_0)
                        =~= chord_buffer(chords) + spec_parse_sequence(
                        t@.subrange(j + 1, n as int),
                    )->Ok_0);
                },
            }
            i = j + 1;
        } else {
            let c = KeyChord::from_char(t[i]);
            chord_buffer_push(&mut chords, c);
            assert(rest.drop_first() =~= t@.subrange(i + 1, n as int));
            assert(acc + (seq![c] + spec_parse_sequence(t@.subrange(i + 1, n as int))->Ok_0)
                =~= chord_buffer(chords) + spec_parse_sequence(t@.subrange(i + 1, n as int))->Ok_0);
            i += 1;
        }
    }
    assert(chord_buffer(chords) + Seq::<KeyChord>::empty() =~= chord_buffer(chords));
    Ok(KeySequence(chords))
}

/// Whether reading `s` as a sequence completes (see [`sequence_text_ok`]).
pub fn sequence_text_is_ok(s: &str) -> (r: bool)
    ensures
        r == sequence_text_ok(s@),
{
    let t = chars_of(s);
    let n = t.len();
    let mut i: usize = 0;
    assert(t@.subrange(0, n as int) =~= t@);
    while i < n
        invariant
            i <= n == t@.len(),
            t@ == s@,
            sequence_text_ok(s@) == sequence_text_ok(t@.subrange(i as int, n as int)),
        decreases n - i,
    {
        let ghost rest = t@.subrange(i as int, n as int);
        if t[i] == '<' {
            let mut j: usize = i + 1;
            while j < n && t[j] != '>'
                invariant
                    i < j <= n == t@.len(),
                    forall|m: int| i < m < j ==> t@[m] != '>',
                decreases n - j,
            {
                j += 1;
            }
            if j >= n {
                proof {
                    assert forall|m: int| 0 <= m < rest.drop_first().len() implies rest.drop_first()[m]
                        != '>' by {
                        assert(rest.drop_first()[m] == t@[i + 1 + m]);
                    }
                    lemma_find_char_none(rest.drop_first(), '>');
                }
                return true;
            }
            proof {
                assert forall|m: int| 0 <= m < j - i - 1 implies rest.drop_first()[m] != '>' by {
                    assert(rest.drop_first()[m] == t@[i + 1 + m]);
                }
                assert(rest.drop_first()[j - i - 1] == t@[j as int]);
                lemma_find_char_some(rest.drop_first(), '>', j - i - 1);
                assert(rest.subrange(1, j - i) =~= t@.subrange(i + 1, j as int));
                assert(rest.subrange(j - i + 1, rest.len() as int) =~= t@.subrange(
                    j + 1,
                    n as int,
                ));
            }
            let content = &t.as_slice()[i + 1..j];
            if !chord_chars_are_ok(content) {
                return false;
            }
            if parse_chord_chars(content).is_err() {
                return true;
            }
            i = j + 1;
        } else {
            assert(rest.drop_first() =~= t@.subrange(i + 1, n as int));
            if (t[i] as u32) >= 128 {
                return false;
            }
            i += 1;
        }
    }
    true
}

impl KeySequence {
    /// Reads a sequence from its text form (see [`spec_parse_sequence`]),
    /// such as `gg`, `<esc>` or `<space><C-w><left>h<ESC>`.
    pub fn from_str(s: &str) -> (r: Result<KeySequence, KeyChordParseError>)
        requires
            sequence_text_ok(s@),
        ensures
            match r {
                Ok(seq) => spec_parse_sequence(s@) == Ok::<Seq<KeyChord>, KeyChordParseError>(
                    seq@,
                ),
                Err(e) => spec_parse_sequence(s@) == Err::<Seq<KeyChord>, KeyChordParseError>(e),
            },
    {
        let t = chars_of(s);
        parse_sequence_chars(t.as_slice())
    }
}


// ---------------------------------------------------------------------------
// Reading back a sequence's text

/// Whether a chord reads back from its text inside a sequence: it is in
/// normal form, its text is readable (see [`has_readable_text`]), a character
/// key is an ASCII character, and the `>` key carries no modifier (its text
/// would close the enclosing `<`).
pub open spec fn reads_back_in_sequence(c: KeyChord) -> bool {
    &&& c.spec_normalise() == c
    &&& has_readable_text(c)
    &&& match c.key {
        KeyCode::Char(ch) => is_ascii_char(ch) && (ch == '>' ==> c.mods.bits == 0),
        _ => true,
    }
}

/// The text of a sequence, read from the front.
proof fn lemma_sequence_text_cons(c: KeyChord, s: Seq<KeyChord>)
    ensures
        sequence_text(seq![c] + s) == match (chord_in_sequence(c), sequence_text(s)) {
            (Some(a), Some(b)) => Some(a + b),
            _ => None,
        },
    decreases s.len(),
{
    let cs = seq![c] + s;
    if s.len() == 0 {
        assert(cs =~= seq![c]);
        assert(cs.drop_last() =~= Seq::<KeyChord>::empty());
        assert(sequence_text(Seq::<KeyChord>::empty()) == Some(Seq::<char>::empty()));
        assert(sequence_text(s) == Some(Seq::<char>::empty()));
        if let Some(a) = chord_in_sequence(c) {
            assert(Seq::<char>::empty() + a =~= a);
            assert(a + Seq::<char>::empty() =~= a);
            assert(sequence_text(cs) == Some(a));
        } else {
            assert(sequence_text(cs) is None);
        }
    } else {
        lemma_sequence_text_cons(c, s.drop_last());
        assert(cs.drop_last() =~= seq![c] + s.drop_last());
        assert(cs.last() == s.last());
        let x = chord_in_sequence(c);
        let y = sequence_text(s.drop_last());
        let z = chord_in_sequence(s.last());
        if x is Some && y is Some && z is Some {
            let a = x->0;
            let b = y->0;
            let l = z->0;
            assert((a + b) + l =~= a + (b + l));
        }
    }
}

/// A character that is not `<`, in front of any text, is read first as the
/// chord of itself.
proof fn lemma_single_reads(ch: char, rest: Seq<char>)
    requires
        ch != '<',
    ensures
        spec_parse_sequence(seq![ch] + rest) == prepend_chords(
            seq![KeyChord::spec_new(KeyCode::Char(ch), KeyModifiers { bits: 0 })],
            spec_parse_sequence(rest),
        ),
        sequence_text_ok(seq![ch] + rest) == (is_ascii_char(ch) && sequence_text_ok(rest)),
{
    let x = seq![ch] + rest;
    assert(x[0] == ch);
    assert(x.drop_first() =~= rest);
}

/// A chord text without `>`, enclosed in `<` `>` in front of any text, is
/// read first.
proof fn lemma_tag_reads(t: Seq<char>, c: KeyChord, rest: Seq<char>)
    requires
        forall|j: int| 0 <= j < t.len() ==> t[j] != '>',
        spec_parse_chord(t) == Ok::<KeyChord, KeyChordParseError>(c),
    ensures
        spec_parse_sequence(seq!['<'] + t + seq!['>'] + rest) == prepend_chords(
            seq![c],
            spec_parse_sequence(rest),
        ),
        sequence_text_ok(seq!['<'] + t + seq!['>'] + rest) == (chord_text_ok(t)
            && sequence_text_ok(rest)),
{
    let x = seq!['<'] + t + seq!['>'] + rest;
    let after = x.drop_first();
    assert(x[0] == '<');
    assert forall|j: int| 0 <= j < t.len() implies after[j] != '>' by {
        assert(after[j] == t[j]);
    }
    assert(after[t.len() as int] == '>');
    lemma_find_char_some(after, '>', t.len() as int);
    assert(x.subrange(1, t.len() as int + 1) =~= t);
    assert(x.subrange(t.len() as int + 2, x.len() as int) =~= rest);
}

/// A chord that reads back, written in front of any text, is read first.
proof fn lemma_chord_in_sequence_reads(c: KeyChord, rest: Seq<char>)
    requires
        reads_back_in_sequence(c),
    ensures
        chord_in_sequence(c) matches Some(w) && spec_parse_sequence(w + rest) == prepend_chords(
            seq![c],
            spec_parse_sequence(rest),
        ) && sequence_text_ok(w + rest) == sequence_text_ok(rest),
{
    let bits = c.mods.bits;
    lemma_parse_modifier_prefix(bits);
    lemma_key_text_reads(c.key);
    let p = modifier_prefix(bits);
    let k = key_text(c.key)->0;
    let t = p + k;
    assert(chord_text(c) == Some(t));
    assert(t.last() == k.last());
    assert(chord_text_ok(t));
    lemma_chord_text_round_trip(c);
    if t.len() == 1 {
        assert(p.len() == 0);
        assert(t =~= k);
        assert(t =~= seq![t[0]]);
        assert(c.mods == KeyModifiers { bits: 0 });
        lemma_single_reads(t[0], rest);
    } else {
        assert forall|j: int| 0 <= j < t.len() implies t[j] != '>' by {
            if j >= p.len() {
                assert(t[j] == k[j - p.len()]);
            }
        }
        lemma_tag_reads(t, c, rest);
    }
}

/// A sequence of chords that each read back (see [`reads_back_in_sequence`])
/// has a text that reads back as the same sequence.
pub proof fn lemma_sequence_text_round_trip(s: Seq<KeyChord>)
    requires
        forall|i: int| 0 <= i < s.len() ==> reads_back_in_sequence(#[trigger] s[i]),
    ensures
        sequence_text(s) matches Some(t) && sequence_text_ok(t) && spec_parse_sequence(t) == Ok::<
            Seq<KeyChord>,
            KeyChordParseError,
        >(s),
    decreases s.len(),
{
    if s.len() > 0 {
        let rest = s.drop_first();
        assert forall|i: int| 0 <= i < rest.len() implies reads_back_in_sequence(#[trigger] rest[i]) by {
            assert(rest[i] == s[i + 1]);
        }
        lemma_sequence_text_round_trip(rest);
        assert(seq![s[0]] + rest =~= s);
        lemma_sequence_text_cons(s[0], rest);
        let rest_text = sequence_text(rest)->0;
        assert(reads_back_in_sequence(s[0]));
        lemma_chord_in_sequence_reads(s[0], rest_text);
        let w = chord_in_sequence(s[0])->0;
        assert(sequence_text(s) == Some(w + rest_text));
        assert(spec_parse_sequence(w + rest_text) == Ok::<Seq<KeyChord>, KeyChordParseError>(
            seq![s[0]] + rest,
        ));
    } else {
        assert(s =~= Seq::<KeyChord>::empty());
    }
}

} // verus!
