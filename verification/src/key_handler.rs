//! The decisions of the key handler: which key presses are consumed, and when
//! the events of a completed key sequence fire. The handler keeps the keys
//! pressed so far; a sequence fires as soon as no longer mapping can still
//! match, or, while some mapping still matches, once no key came for longer
//! than the time-out (one second).

use vstd::prelude::*;

use crate::key_chord::{KeyChord, KeyEvent};
use crate::key_map::{
    full_matches_range, has_prefix, lemma_blank_records_nothing, lemma_match_ranges,
    matches_range, partial_matches_range, records_keys, KeyMap, KeyMapMatch, KeyMapping,
};

verus! {

/// Whether an event handler stops an event or passes it on to its parent.
#[derive(Debug, Clone, Copy, PartialEq, Eq, Structural)]
pub enum EventFlow {
    /// Stop propagating the event.
    Consume,
    /// Pass the event on to the parent's handler.
    Propagate,
}

/// What the key handler reacts to: a tick of the clock that reports the
/// time since the previous tick in nanoseconds, a key press, or anything else.
#[derive(Debug, Clone, Copy, PartialEq, Eq, Structural)]
pub enum KeyInput {
    Tick(u128),
    Key(KeyEvent),
    Other,
}

/// The largest span of time in nanoseconds (`Duration::MAX`).
pub const DURATION_MAX_NANOS: u128 = 18446744073709551615999999999u128;

/// The time-out after the last key press, in nanoseconds (one second).
pub const TIMEOUT_LEN_NANOS: u128 = 1000000000u128;

/// Whether some mapping starts with the keys `pressed`.
pub open spec fn any_match<E>(map: Seq<KeyMapping<E>>, pressed: Seq<KeyChord>) -> bool {
    exists|i: int| 0 <= i < map.len() && has_prefix(#[trigger] map[i].key_sequence@, pressed)
}

/// Whether some mapping starts with the keys `pressed` and is longer.
pub open spec fn any_longer_match<E>(map: Seq<KeyMapping<E>>, pressed: Seq<KeyChord>) -> bool {
    exists|i: int|
        0 <= i < map.len() && has_prefix(#[trigger] map[i].key_sequence@, pressed)
            && map[i].key_sequence@.len() > pressed.len()
}

/// `events` are clones of the events of exactly the mappings whose key
/// sequence is `keys`, in the order of the map.
pub open spec fn fires<E: Clone>(map: Seq<KeyMapping<E>>, keys: Seq<KeyChord>, events: Seq<E>) -> bool {
    exists|lo: int, hi: int|
        #![trigger map.subrange(lo, hi)]
        0 <= lo <= hi <= map.len() && (forall|i: int|
            0 <= i < map.len() ==> (lo <= i < hi <==> #[trigger] map[i].key_sequence@ == keys))
            && events.len() == hi - lo && (forall|j: int|
            0 <= j < events.len() ==> cloned(#[trigger] map[lo + j].app_event, events[j]))
}

/// The keys pressed so far: the match in the key map, the time since the
/// last key press, and (for the proofs) the chords themselves.
struct MatchState {
    key_map_match: KeyMapMatch,
    timeout: u128,
    pressed: Ghost<Seq<KeyChord>>,
}

/// Turns key presses into events by way of a key map.
pub struct KeyHandler<E> {
    key_map: KeyMap<E>,
    state: MatchState,
    timeoutlen: u128,
}

impl<E> KeyHandler<E> {
    #[verifier::type_invariant]
    spec fn tracks_pressed(self) -> bool {
        &&& self.timeoutlen == TIMEOUT_LEN_NANOS
        &&& self.state.pressed@.len() == 0 ==> self.state.key_map_match == KeyMapMatch::blank()
        &&& self.key_map@.len() <= 65535 ==> records_keys(
            self.state.key_map_match,
            self.key_map@,
            self.state.pressed@,
        )
    }

    /// The mappings.
    pub closed spec fn mappings(self) -> Seq<KeyMapping<E>> {
        self.key_map@
    }

    /// The keys pressed since the last sequence fired.
    pub closed spec fn pressed(self) -> Seq<KeyChord> {
        self.state.pressed@
    }

    /// Nanoseconds since the last key press, counted while some mapping matches.
    pub closed spec fn timeout(self) -> u128 {
        self.state.timeout
    }

    /// Number of keys pressed since the last sequence fired.
    pub closed spec fn key_count(self) -> u8 {
        self.state.key_map_match.next_key_idx
    }

    /// A handler of `key_map` with no key pressed.
    pub fn new(key_map: KeyMap<E>) -> (r: KeyHandler<E>)
        ensures
            r.mappings() == key_map@,
            r.pressed() == Seq::<KeyChord>::empty(),
            r.timeout() == 0,
            r.key_count() == 0,
    {
        proof {
            if key_map@.len() <= 65535 {
                lemma_blank_records_nothing(key_map@);
            }
        }
        KeyHandler {
            key_map,
            state: MatchState {
                key_map_match: KeyMapMatch::new(),
                timeout: 0,
                pressed: Ghost(Seq::empty()),
            },
            timeoutlen: TIMEOUT_LEN_NANOS,
        }
    }

    /// Nanoseconds since the last key press, counted while some mapping matches.
    pub fn timeout_nanos(&self) -> (r: u128)
        ensures
            r == self.timeout(),
    {
        self.state.timeout
    }

    /// Number of keys pressed since the last sequence fired.
    pub fn pressed_count(&self) -> (r: u8)
        ensures
            r == self.key_count(),
    {
        self.state.key_map_match.next_key_idx
    }

}

impl<E: Clone> KeyHandler<E> {
    /// Clones of the events of the full matches of `m`, in order.
    fn full_match_events(&self, m: KeyMapMatch) -> (r: Vec<E>)
        ensures
            r@.len() == full_matches_range(m, self.key_map@.len() as int).1 - full_matches_range(
                m,
                self.key_map@.len() as int,
            ).0,
            forall|j: int|
                0 <= j < r@.len() ==> cloned(
                    #[trigger] self.key_map@[full_matches_range(
                        m,
                        self.key_map@.len() as int,
                    ).0 + j].app_event,
                    r@[j],
                ),
    {
        let matches = m.full_matches(&self.key_map);
        let ghost lo = full_matches_range(m, self.key_map@.len() as int).0;
        let mut events: Vec<E> = Vec::new();
        let mut i: usize = 0;
        while i < matches.len()
            invariant
                i <= matches@.len(),
                events@.len() == i,
                forall|j: int| 0 <= j < i ==> cloned(#[trigger] matches@[j].app_event, events@[j]),
            decreases matches.len() - i,
        {
            events.push(matches[i].app_event.clone());
            i += 1;
        }
        proof {
            assert forall|j: int| 0 <= j < events@.len() implies cloned(
                #[trigger] self.key_map@[lo + j].app_event,
                events@[j],
            ) by {
                assert(matches@[j] == self.key_map@[lo + j]);
            }
        }
        events
    }

    /// Reacts to one input; returns whether the input is consumed and the
    /// events to send, in order.
    ///
    /// A key press adds its chord (see [`KeyChord::from_event`]) to the keys
    /// pressed and resets the time-out. If no mapping starts with the keys
    /// pressed, the press is passed on; if one does but none is longer, the
    /// mappings that are exactly the keys pressed fire and the keys are
    /// forgotten; otherwise the handler waits for more keys.
    ///
    /// A tick adds its time to the time-out while some mapping matches; once
    /// the time-out is longer than a second, the mappings that are exactly the
    /// keys pressed (if any key was pressed) fire and the keys are forgotten.
    pub fn update(&mut self, input: KeyInput) -> (r: (EventFlow, Vec<E>))
        requires
            input matches KeyInput::Key(_) ==> old(self).key_count() < 255,
            input matches KeyInput::Tick(d) ==> old(self).timeout() + d <= DURATION_MAX_NANOS,
        ensures
            final(self).mappings() == old(self).mappings(),
            old(self).mappings().len() <= 65535 ==> match input {
                KeyInput::Key(ev) => {
                    let keys = old(self).pressed().push(KeyChord::spec_new(ev.code, ev.modifiers));
                    &&& final(self).timeout() == 0
                    &&& !any_match(old(self).mappings(), keys) ==> {
                        &&& r.0 == EventFlow::Propagate
                        &&& r.1@.len() == 0
                        &&& final(self).pressed() == keys
                    }
                    &&& any_match(old(self).mappings(), keys) && !any_longer_match(
                        old(self).mappings(),
                        keys,
                    ) ==> {
                        &&& r.0 == EventFlow::Consume
                        &&& fires(old(self).mappings(), keys, r.1@)
                        &&& final(self).pressed() == Seq::<KeyChord>::empty()
                    }
                    &&& any_longer_match(old(self).mappings(), keys) ==> {
                        &&& r.0 == EventFlow::Consume
                        &&& r.1@.len() == 0
                        &&& final(self).pressed() == keys
                    }
                },
                KeyInput::Tick(d) => {
                    let elapsed = if any_match(old(self).mappings(), old(self).pressed()) {
                        old(self).timeout() + d
                    } else {
                        old(self).timeout() as int
                    };
                    &&& r.0 == EventFlow::Propagate
                    &&& elapsed > TIMEOUT_LEN_NANOS ==> {
                        &&& final(self).pressed() == Seq::<KeyChord>::empty()
                        &&& final(self).timeout() == 0
                        &&& old(self).pressed().len() > 0 ==> fires(
                            old(self).mappings(),
                            old(self).pressed(),
                            r.1@,
                        )
                        &&& old(self).pressed().len() == 0 ==> r.1@.len() == 0
                    }
                    &&& elapsed <= TIMEOUT_LEN_NANOS ==> {
                        &&& final(self).pressed() == old(self).pressed()
                        &&& final(self).timeout() == elapsed
                        &&& r.1@.len() == 0
                    }
                },
                KeyInput::Other => {
                    &&& r.0 == EventFlow::Propagate
                    &&& r.1@.len() == 0
                    &&& final(self).pressed() == old(self).pressed()
                    &&& final(self).timeout() == old(self).timeout()
                },
            },
    {
        proof {
            use_type_invariant(&*self);
        }
        let ghost map = self.key_map@;
        let ghost len = map.len() as int;
        let ghost old_pressed = self.state.pressed@;
        match input {
            KeyInput::Tick(delta) => {
                let m = self.state.key_map_match;
                let pending = m.matches(&self.key_map).len() > 0;
                proof {
                    if len <= 65535 {
                        lemma_match_ranges(m, map, old_pressed);
                        lemma_any_match_is_range(m, map, old_pressed);
                    }
                }
                let timeout = if pending {
                    self.state.timeout + delta
                } else {
                    self.state.timeout
                };
                if timeout > self.timeoutlen {
                    let events = self.full_match_events(m);
                    proof {
                        if len <= 65535 {
                            lemma_blank_records_nothing(map);
                            if old_pressed.len() > 0 {
                                lemma_fires(m, map, old_pressed, events@);
                            } else {
                                assert(m.full_match_end == 0);
                            }
                        }
                    }
                    self.state = MatchState {
                        key_map_match: KeyMapMatch::new(),
                        timeout: 0,
                        pressed: Ghost(Seq::empty()),
                    };
                    (EventFlow::Propagate, events)
                } else {
                    self.state = MatchState {
                        key_map_match: m,
                        timeout,
                        pressed: Ghost(old_pressed),
                    };
                    (EventFlow::Propagate, Vec::new())
                }
            },
            KeyInput::Key(key_event) => {
                let chord = KeyChord::from_event(key_event);
                let m = self.key_map.match_key(chord, self.state.key_map_match);
                let ghost keys = old_pressed.push(chord);
                proof {
                    if len <= 65535 {
                        assert(records_keys(self.state.key_map_match, map, old_pressed));
                        assert(records_keys(m, map, keys));
                        lemma_match_ranges(m, map, keys);
                        lemma_any_match_is_range(m, map, keys);
                        lemma_blank_records_nothing(map);
                    }
                }
                if m.matches(&self.key_map).len() == 0 {
                    self.state = MatchState { key_map_match: m, timeout: 0, pressed: Ghost(keys) };
                    (EventFlow::Propagate, Vec::new())
                } else if m.partial_matches(&self.key_map).len() == 0 {
                    let events = self.full_match_events(m);
                    proof {
                        if len <= 65535 {
                            lemma_fires(m, map, keys, events@);
                        }
                    }
                    self.state = MatchState {
                        key_map_match: KeyMapMatch::new(),
                        timeout: 0,
                        pressed: Ghost(Seq::empty()),
                    };
                    (EventFlow::Consume, events)
                } else {
                    self.state = MatchState { key_map_match: m, timeout: 0, pressed: Ghost(keys) };
                    (EventFlow::Consume, Vec::new())
                }
            },
            KeyInput::Other => (EventFlow::Propagate, Vec::new()),
        }
    }
}

/// The range of all matches is empty exactly when no mapping matches, and
/// the range of the partial matches exactly when no longer mapping matches.
proof fn lemma_any_match_is_range<E>(m: KeyMapMatch, map: Seq<KeyMapping<E>>, pressed: Seq<KeyChord>)
    requires
        records_keys(m, map, pressed),
    ensures
        any_match(map, pressed) <==> matches_range(m, map.len() as int).0 < matches_range(
            m,
            map.len() as int,
        ).1,
        pressed.len() > 0 ==> (any_longer_match(map, pressed) <==> partial_matches_range(
            m,
            map.len() as int,
        ).0 < partial_matches_range(m, map.len() as int).1),
{
    lemma_match_ranges(m, map, pressed);
    let mr = matches_range(m, map.len() as int);
    if mr.0 < mr.1 {
        assert(has_prefix(map[mr.0].key_sequence@, pressed));
    }
    if pressed.len() > 0 {
        let pr = partial_matches_range(m, map.len() as int);
        if pr.0 < pr.1 {
            assert(has_prefix(map[pr.0].key_sequence@, pressed));
        }
    }
}

/// The clones of the full matches fire the mappings that are exactly the keys.
proof fn lemma_fires<E: Clone>(m: KeyMapMatch, map: Seq<KeyMapping<E>>, keys: Seq<KeyChord>, events: Seq<E>)
    requires
        records_keys(m, map, keys),
        keys.len() > 0,
        events.len() == full_matches_range(m, map.len() as int).1 - full_matches_range(
            m,
            map.len() as int,
        ).0,
        forall|j: int|
            0 <= j < events.len() ==> cloned(
                #[trigger] map[full_matches_range(m, map.len() as int).0 + j].app_event,
                events[j],
            ),
    ensures
        fires(map, keys, events),
{
    lemma_match_ranges(m, map, keys);
    let fr = full_matches_range(m, map.len() as int);
    assert(0 <= fr.0 <= fr.1 <= map.len());
    assert(forall|j: int|
        0 <= j < events.len() ==> cloned(#[trigger] map[fr.0 + j].app_event, events[j]));
    let _ = map.subrange(fr.0, fr.1);
}

} // verus!
