//! A key map: key sequences mapped to application events, kept sorted so
//! that the keys pressed so far can be narrowed down one chord at a time.
//!
//! The mappings `G`, `gd`, `gg`, `go`, `h`, `hi` sort in this order; after `g`
//! the matches are `gd`, `gg`, `go` and none is a full match; after `g` `g`
//! the only match is `gg`, and it is a full match.

use vstd::prelude::*;

use crate::key_chord::{chord_rank, lemma_chord_rank_injective, lemma_key_payload_bounds, KeyChord};
use crate::key_sequence::KeySequence;

verus! {

broadcast use vstd::seq_lib::group_to_multiset_ensures;

// ---------------------------------------------------------------------------
// Order of key sequences

/// Lexicographic comparison of chord sequences by [`chord_rank`]: -1, 0 or 1.
/// A proper prefix comes before the longer sequence.
pub open spec fn seq_compare(a: Seq<KeyChord>, b: Seq<KeyChord>) -> int
    decreases a.len(),
{
    if a.len() == 0 {
        if b.len() == 0 {
            0
        } else {
            -1
        }
    } else if b.len() == 0 {
        1
    } else if chord_rank(a[0]) < chord_rank(b[0]) {
        -1
    } else if chord_rank(a[0]) > chord_rank(b[0]) {
        1
    } else {
        seq_compare(a.drop_first(), b.drop_first())
    }
}

/// Ranks are not negative.
pub proof fn lemma_chord_rank_nonneg(c: KeyChord)
    ensures
        chord_rank(c) >= 0,
{
    lemma_key_payload_bounds(c.key);
}

/// Swapping the arguments negates the comparison.
pub proof fn lemma_compare_antisymmetric(a: Seq<KeyChord>, b: Seq<KeyChord>)
    ensures
        seq_compare(a, b) == -seq_compare(b, a),
    decreases a.len(),
{
    if a.len() > 0 && b.len() > 0 && chord_rank(a[0]) == chord_rank(b[0]) {
        lemma_compare_antisymmetric(a.drop_first(), b.drop_first());
    }
}

/// Sequences compare equal exactly when they are equal.
pub proof fn lemma_compare_equal(a: Seq<KeyChord>, b: Seq<KeyChord>)
    ensures
        seq_compare(a, b) == 0 <==> a == b,
    decreases a.len(),
{
    if a.len() == 0 && b.len() == 0 {
        assert(a =~= b);
    }
    if a.len() > 0 && b.len() > 0 {
        lemma_chord_rank_injective(a[0], b[0]);
        lemma_compare_equal(a.drop_first(), b.drop_first());
        if seq_compare(a, b) == 0 {
            assert(a =~= seq![a[0]] + a.drop_first());
            assert(b =~= seq![b[0]] + b.drop_first());
        }
        if a == b {
            assert(a.drop_first() == b.drop_first());
        }
    }
}

/// The comparison is transitive, and strictly so if either step is strict.
pub proof fn lemma_compare_transitive(a: Seq<KeyChord>, b: Seq<KeyChord>, c: Seq<KeyChord>)
    requires
        seq_compare(a, b) <= 0,
        seq_compare(b, c) <= 0,
    ensures
        seq_compare(a, c) <= 0,
        seq_compare(a, b) < 0 || seq_compare(b, c) < 0 ==> seq_compare(a, c) < 0,
    decreases a.len(),
{
    if a.len() > 0 && b.len() > 0 && c.len() > 0 {
        if chord_rank(a[0]) == chord_rank(b[0]) && chord_rank(b[0]) == chord_rank(c[0]) {
            lemma_compare_transitive(a.drop_first(), b.drop_first(), c.drop_first());
        }
    }
}

/// A common prefix does not change the comparison.
pub proof fn lemma_compare_skip(a: Seq<KeyChord>, b: Seq<KeyChord>, k: int)
    requires
        0 <= k <= a.len(),
        k <= b.len(),
        a.subrange(0, k) == b.subrange(0, k),
    ensures
        seq_compare(a, b) == seq_compare(a.skip(k), b.skip(k)),
    decreases k,
{
    if k > 0 {
        assert(a[0] == a.subrange(0, k)[0]);
        assert(b[0] == b.subrange(0, k)[0]);
        assert(a.drop_first().subrange(0, k - 1) =~= a.subrange(0, k).drop_first());
        assert(b.drop_first().subrange(0, k - 1) =~= b.subrange(0, k).drop_first());
        lemma_compare_skip(a.drop_first(), b.drop_first(), k - 1);
        assert(a.drop_first().skip(k - 1) =~= a.skip(k));
        assert(b.drop_first().skip(k - 1) =~= b.skip(k));
    } else {
        assert(a.skip(0) =~= a);
        assert(b.skip(0) =~= b);
    }
}

/// Lexicographic comparison of chord sequences: -1, 0 or 1 (see [`seq_compare`]).
pub fn compare_sequences(a: &[KeyChord], b: &[KeyChord]) -> (r: i8)
    ensures
        r == seq_compare(a@, b@),
{
    let mut i: usize = 0;
    assert(a@.skip(0) =~= a@);
    assert(b@.skip(0) =~= b@);
    loop
        invariant
            i <= a.len(),
            i <= b.len(),
            seq_compare(a@, b@) == seq_compare(a@.skip(i as int), b@.skip(i as int)),
        decreases a.len() - i,
    {
        if i == a.len() {
            if i == b.len() {
                return 0;
            } else {
                return -1;
            }
        }
        if i == b.len() {
            return 1;
        }
        let ra = a[i].rank();
        let rb = b[i].rank();
        assert(a@.skip(i as int)[0] == a@[i as int]);
        assert(b@.skip(i as int)[0] == b@[i as int]);
        if ra < rb {
            return -1;
        }
        if ra > rb {
            return 1;
        }
        assert(a@.skip(i as int).drop_first() =~= a@.skip(i + 1));
        assert(b@.skip(i as int).drop_first() =~= b@.skip(i + 1));
        i += 1;
    }
}

// ---------------------------------------------------------------------------
// Mappings

/// Inserting `x` anywhere adds it to the multiset of elements.
proof fn lemma_insert_multiset<T>(s: Seq<T>, i: int, x: T)
    requires
        0 <= i <= s.len(),
    ensures
        s.insert(i, x).to_multiset() =~= s.to_multiset().insert(x),
{
    let t = s.insert(i, x);
    assert(t.remove(i) =~= s);
    vstd::seq_lib::to_multiset_remove(t, i);
    assert(t[i] == x);
    assert(t.contains(x));
}

/// A mapping as plain values: its key sequence and its event.
pub open spec fn mapping_view<E>(m: KeyMapping<E>) -> (Seq<KeyChord>, E) {
    (m.key_sequence@, m.app_event)
}

/// A complete key sequence and the event it triggers.
#[derive(Debug, Clone, PartialEq, Eq)]
pub struct KeyMapping<E> {
    /// The complete key sequence
    pub key_sequence: KeySequence,
    /// The event that should be triggered
    pub app_event: E,
}

impl<E> KeyMapping<E> {
    /// A mapping from `key_sequence` to `app_event`.
    pub fn new(key_sequence: KeySequence, app_event: E) -> (r: KeyMapping<E>)
        ensures
            r.key_sequence == key_sequence,
            r.app_event == app_event,
    {
        KeyMapping { key_sequence, app_event }
    }
}

/// Whether the mappings are sorted by key sequence.
pub open spec fn mappings_sorted<E>(m: Seq<KeyMapping<E>>) -> bool {
    forall|i: int, j: int|
        0 <= i < j < m.len() ==> seq_compare(
            #[trigger] m[i].key_sequence@,
            #[trigger] m[j].key_sequence@,
        ) <= 0
}

/// Key mappings, sorted by key sequence.
#[derive(Debug, PartialEq, Eq)]
pub struct KeyMap<E>(Vec<KeyMapping<E>>);

impl<E> KeyMap<E> {
    #[verifier::type_invariant]
    spec fn sorted(self) -> bool {
        mappings_sorted(self.0@)
    }

    /// The mappings, in order.
    pub closed spec fn view(&self) -> Seq<KeyMapping<E>> {
        self.0@
    }

    /// The key map of the mappings, sorted by key sequence. Mappings with the
    /// same key sequence keep no particular order among themselves.
    pub fn from(vec: Vec<KeyMapping<E>>) -> (r: KeyMap<E>)
        ensures
            r@.to_multiset() == vec@.to_multiset(),
            r@.map_values(|m: KeyMapping<E>| mapping_view(m)).to_multiset() == vec@.map_values(
                |m: KeyMapping<E>| mapping_view(m),
            ).to_multiset(),
            mappings_sorted(r@),
    {
        let mut input = vec;
        let mut out: Vec<KeyMapping<E>> = Vec::new();
        let ghost f = |m: KeyMapping<E>| mapping_view(m);
        while input.len() > 0
            invariant
                mappings_sorted(out@),
                f == (|m: KeyMapping<E>| mapping_view(m)),
                out@.to_multiset().add(input@.to_multiset()) =~= vec@.to_multiset(),
                out@.map_values(f).to_multiset().add(input@.map_values(f).to_multiset())
                    =~= vec@.map_values(f).to_multiset(),
            decreases input.len(),
        {
            let ghost before = input@;
            let m = input.pop().unwrap();
            proof {
                assert(before =~= input@.push(m));
                assert(before.map_values(f) =~= input@.map_values(f).push(f(m)));
            }
            let mut pos: usize = 0;
            while pos < out.len() && compare_sequences(
                out[pos].key_sequence.as_slice(),
                m.key_sequence.as_slice(),
            ) <= 0
                invariant
                    pos <= out.len(),
                    forall|i: int| 0 <= i < pos ==> seq_compare(#[trigger] out@[i].key_sequence@, m.key_sequence@) <= 0,
                decreases out.len() - pos,
            {
                pos += 1;
            }
            let ghost old_out = out@;
            proof {
                lemma_insert_multiset(old_out, pos as int, m);
                lemma_insert_multiset(old_out.map_values(f), pos as int, f(m));
                assert(old_out.insert(pos as int, m).map_values(f) =~= old_out.map_values(f).insert(
                    pos as int,
                    f(m),
                ));
                if pos < old_out.len() {
                    lemma_compare_antisymmetric(old_out[pos as int].key_sequence@, m.key_sequence@);
                }
            }
            out.insert(pos, m);
            proof {
                assert forall|i: int, j: int| 0 <= i < j < out@.len() implies seq_compare(
                    #[trigger] out@[i].key_sequence@,
                    #[trigger] out@[j].key_sequence@,
                ) <= 0 by {
                    if j == pos {
                        assert(out@[i] == old_out[i]);
                    } else if i == pos {
                        assert(out@[j] == old_out[j - 1]);
                        if j - 1 > pos {
                            assert(seq_compare(old_out[pos as int].key_sequence@, old_out[j - 1].key_sequence@) <= 0);
                            lemma_compare_transitive(
                                m.key_sequence@,
                                old_out[pos as int].key_sequence@,
                                old_out[j - 1].key_sequence@,
                            );
                        }
                    } else {
                        let oi = if i < pos { i } else { i - 1 };
                        let oj = if j < pos { j } else { j - 1 };
                        assert(out@[i] == old_out[oi]);
                        assert(out@[j] == old_out[oj]);
                    }
                }
            }
        }
        proof {
            assert(input@ =~= Seq::<KeyMapping<E>>::empty());
            assert(input@.map_values(f) =~= Seq::<(Seq<KeyChord>, E)>::empty());
        }
        KeyMap(out)
    }

    /// Number of mappings.
    pub fn len(&self) -> (r: usize)
        ensures
            r == self@.len(),
    {
        self.0.len()
    }

    /// The mappings, in order.
    pub fn as_slice(&self) -> (r: &[KeyMapping<E>])
        ensures
            r@ == self@,
    {
        self.0.as_slice()
    }
}

// ---------------------------------------------------------------------------
// Narrowing the mappings down key by key

/// The keys matched so far: the mappings `match_start..match_end` start with
/// them, of which `match_start..full_match_end` consist of exactly them;
/// `next_key_idx` is the number of keys matched.
#[derive(Debug, Clone, Copy, PartialEq, Eq, Structural)]
pub struct KeyMapMatch {
    pub match_start: u16,
    pub match_end: u16,
    pub full_match_end: u16,
    pub next_key_idx: u8,
}

impl Default for KeyMapMatch {
    fn default() -> (r: KeyMapMatch)
        ensures
            r == KeyMapMatch::blank(),
    {
        KeyMapMatch { match_start: 0, match_end: 65535, full_match_end: 0, next_key_idx: 0 }
    }
}

/// Whether `p` is a prefix of `s`.
pub open spec fn has_prefix(s: Seq<KeyChord>, p: Seq<KeyChord>) -> bool {
    p.len() <= s.len() && s.subrange(0, p.len() as int) == p
}

/// The chord at position `k` as a number: its rank, or -1 past the end. This
/// orders `KeySequence::get(k)` as `Option`s are ordered (`None` first).
pub open spec fn rank_at(s: Seq<KeyChord>, k: int) -> int {
    if 0 <= k < s.len() {
        chord_rank(s[k])
    } else {
        -1
    }
}

/// Whether the chord at position `k` ranks above `target` (strictly, or not).
pub open spec fn ranks_above(s: Seq<KeyChord>, k: int, target: int, strict: bool) -> bool {
    if strict {
        rank_at(s, k) > target
    } else {
        rank_at(s, k) >= target
    }
}

/// Whether the mappings `from..to` are ordered by their chord at position `k`.
pub open spec fn window_sorted<E>(map: Seq<KeyMapping<E>>, from: int, to: int, k: int) -> bool {
    forall|i: int, j: int|
        from <= i <= j < to ==> rank_at(#[trigger] map[i].key_sequence@, k) <= rank_at(
            #[trigger] map[j].key_sequence@,
            k,
        )
}

/// The end of the recorded range, cut to the number of mappings.
pub open spec fn window_end(m: KeyMapMatch, len: int) -> int {
    if (m.match_end as int) < len {
        m.match_end as int
    } else {
        len
    }
}

/// `m` records the keys `pressed` for the mappings `map`: the range it
/// records holds exactly the mappings whose key sequence starts with the keys
/// pressed, and, once a key was pressed, the full matches come first.
pub open spec fn records_keys<E>(m: KeyMapMatch, map: Seq<KeyMapping<E>>, pressed: Seq<KeyChord>) -> bool {
    &&& m.next_key_idx == pressed.len()
    &&& forall|i: int|
        0 <= i < map.len() ==> (m.match_start <= i < window_end(m, map.len() as int)
            <==> has_prefix(#[trigger] map[i].key_sequence@, pressed))
    &&& pressed.len() > 0 ==> {
        &&& m.match_start <= m.full_match_end
        &&& (m.full_match_end <= window_end(m, map.len() as int) || m.full_match_end
            == m.match_start)
        &&& forall|i: int|
            m.match_start <= i < window_end(m, map.len() as int) && 0 <= i < map.len() ==> (i
                < m.full_match_end <==> (#[trigger] map[i].key_sequence@).len() == pressed.len())
    }
}

/// Range of all matches, as [`KeyMapMatch::matches`] returns it.
pub open spec fn matches_range(m: KeyMapMatch, len: int) -> (int, int) {
    let to = window_end(m, len);
    (if (m.match_start as int) < to {
        m.match_start as int
    } else {
        to
    }, to)
}

/// Range of the full matches, as [`KeyMapMatch::full_matches`] returns it.
pub open spec fn full_matches_range(m: KeyMapMatch, len: int) -> (int, int) {
    let to = if (m.full_match_end as int) < len {
        m.full_match_end as int
    } else {
        len
    };
    (if (m.match_start as int) < to {
        m.match_start as int
    } else {
        to
    }, to)
}

/// Range of the partial matches, as [`KeyMapMatch::partial_matches`] returns it.
pub open spec fn partial_matches_range(m: KeyMapMatch, len: int) -> (int, int) {
    let to = window_end(m, len);
    (if (m.full_match_end as int) < to {
        m.full_match_end as int
    } else {
        to
    }, to)
}

impl KeyMapMatch {
    /// The match before any key is pressed.
    pub open spec fn blank() -> KeyMapMatch {
        KeyMapMatch { match_start: 0, match_end: 65535, full_match_end: 0, next_key_idx: 0 }
    }

    /// A match before any key is pressed: every mapping matches, none fully.
    pub fn new() -> (r: KeyMapMatch)
        ensures
            r == KeyMapMatch::blank(),
    {
        KeyMapMatch { match_start: 0, match_end: 65535, full_match_end: 0, next_key_idx: 0 }
    }

    /// All mappings whose key sequence starts with the keys recorded here.
    pub fn matches<'a, E>(self, key_map: &'a KeyMap<E>) -> (r: &'a [KeyMapping<E>])
        ensures
            r@ == key_map@.subrange(
                matches_range(self, key_map@.len() as int).0,
                matches_range(self, key_map@.len() as int).1,
            ),
    {
        let len = key_map.len();
        let to = if (self.match_end as usize) < len {
            self.match_end as usize
        } else {
            len
        };
        let from = if (self.match_start as usize) < to {
            self.match_start as usize
        } else {
            to
        };
        vstd::slice::slice_subrange(key_map.as_slice(), from, to)
    }

    /// The mappings whose key sequence is exactly the keys recorded here.
    pub fn full_matches<'a, E>(self, key_map: &'a KeyMap<E>) -> (r: &'a [KeyMapping<E>])
        ensures
            r@ == key_map@.subrange(
                full_matches_range(self, key_map@.len() as int).0,
                full_matches_range(self, key_map@.len() as int).1,
            ),
    {
        let len = key_map.len();
        let to = if (self.full_match_end as usize) < len {
            self.full_match_end as usize
        } else {
            len
        };
        let from = if (self.match_start as usize) < to {
            self.match_start as usize
        } else {
            to
        };
        vstd::slice::slice_subrange(key_map.as_slice(), from, to)
    }

    /// The matches that are not full matches: their key sequence is longer
    /// than the keys recorded here.
    pub fn partial_matches<'a, E>(self, key_map: &'a KeyMap<E>) -> (r: &'a [KeyMapping<E>])
        ensures
            r@ == key_map@.subrange(
                partial_matches_range(self, key_map@.len() as int).0,
                partial_matches_range(self, key_map@.len() as int).1,
            ),
    {
        let len = key_map.len();
        let to = if (self.match_end as usize) < len {
            self.match_end as usize
        } else {
            len
        };
        let from = if (self.full_match_end as usize) < to {
            self.full_match_end as usize
        } else {
            to
        };
        vstd::slice::slice_subrange(key_map.as_slice(), from, to)
    }
}

/// What [`KeyMap::match_key`] gives for `map`, the chord `c` and the
/// previous match `prev`: one more key counted, a range that does not run
/// backwards, and, when `prev` records keys `p` for `map`, a match that
/// records `p` followed by `c`, whose range ends inside the map when some
/// mapping matches and is empty at `prev.match_start` when none does.
pub open spec fn key_match_step<E>(map: Seq<KeyMapping<E>>, c: KeyChord, prev: KeyMapMatch, r: KeyMapMatch) -> bool {
    &&& r.next_key_idx == prev.next_key_idx + 1
    &&& r.match_start <= r.match_end
    &&& forall|p: Seq<KeyChord>|
        #![trigger records_keys(prev, map, p)]
        map.len() <= 65535 && records_keys(prev, map, p) ==> {
            &&& records_keys(r, map, p.push(c))
            &&& (exists|i: int| 0 <= i < map.len() && has_prefix(#[trigger] map[i].key_sequence@, p.push(c)))
                ==> r.match_end <= map.len()
            &&& (forall|i: int|
                0 <= i < map.len() ==> !has_prefix(#[trigger] map[i].key_sequence@, p.push(c)))
                ==> r.match_start == prev.match_start && r.match_end == prev.match_start
                && r.full_match_end == prev.match_start
        }
}

/// Whether the chord at position `k` of `seq` ranks above `target`.
fn chord_ranks_above(seq: &KeySequence, k: usize, target: u64, strict: bool) -> (r: bool)
    ensures
        r == ranks_above(seq@, k as int, target as int, strict),
{
    match seq.get(k) {
        None => false,
        Some(c) => {
            let rank = c.rank();
            if strict {
                rank > target
            } else {
                rank >= target
            }
        },
    }
}

/// A sequence that starts with `p` followed by `c` starts with `p`.
proof fn lemma_prefix_of_push(s: Seq<KeyChord>, p: Seq<KeyChord>, c: KeyChord)
    requires
        has_prefix(s, p.push(c)),
    ensures
        has_prefix(s, p),
{
    let q = p.push(c);
    assert(s.subrange(0, p.len() as int) =~= s.subrange(0, q.len() as int).subrange(
        0,
        p.len() as int,
    ));
    assert(q.subrange(0, p.len() as int) =~= p);
}

/// Mappings that all start with the same `k` chords are ordered by their
/// chord at position `k`.
proof fn lemma_window_sorted<E>(map: Seq<KeyMapping<E>>, from: int, to: int, p: Seq<KeyChord>)
    requires
        mappings_sorted(map),
        0 <= from <= to <= map.len(),
        forall|i: int| from <= i < to ==> has_prefix(#[trigger] map[i].key_sequence@, p),
    ensures
        window_sorted(map, from, to, p.len() as int),
{
    let k = p.len() as int;
    assert forall|i: int, j: int| from <= i <= j < to implies rank_at(
        #[trigger] map[i].key_sequence@,
        k,
    ) <= rank_at(#[trigger] map[j].key_sequence@, k) by {
        let a = map[i].key_sequence@;
        let b = map[j].key_sequence@;
        assert(has_prefix(a, p));
        assert(has_prefix(b, p));
        if a.len() > k {
            lemma_chord_rank_nonneg(a[k]);
        }
        if b.len() > k {
            lemma_chord_rank_nonneg(b[k]);
        }
        if i < j {
            assert(seq_compare(a, b) <= 0);
            lemma_compare_skip(a, b, k);
            if a.len() > k {
                assert(a.skip(k)[0] == a[k]);
                if b.len() > k {
                    assert(b.skip(k)[0] == b[k]);
                }
            }
        }
    }
}

/// From the results of the two searches, the range `lo..hi` holds exactly
/// the mappings that start with `p` followed by `c`.
proof fn lemma_narrowed<E>(
    map: Seq<KeyMapping<E>>,
    p: Seq<KeyChord>,
    c: KeyChord,
    from: int,
    to: int,
    lo: int,
    hi: int,
)
    requires
        0 <= from <= lo <= hi <= to <= map.len(),
        forall|i: int|
            0 <= i < map.len() ==> (from <= i < to <==> has_prefix(
                #[trigger] map[i].key_sequence@,
                p,
            )),
        forall|i: int|
            from <= i < lo ==> !ranks_above(
                #[trigger] map[i].key_sequence@,
                p.len() as int,
                chord_rank(c),
                false,
            ),
        forall|i: int|
            lo <= i < to ==> ranks_above(
                #[trigger] map[i].key_sequence@,
                p.len() as int,
                chord_rank(c),
                false,
            ),
        forall|i: int|
            lo <= i < hi ==> !ranks_above(
                #[trigger] map[i].key_sequence@,
                p.len() as int,
                chord_rank(c),
                true,
            ),
        forall|i: int|
            hi <= i < to ==> ranks_above(
                #[trigger] map[i].key_sequence@,
                p.len() as int,
                chord_rank(c),
                true,
            ),
    ensures
        forall|i: int|
            0 <= i < map.len() ==> (lo <= i < hi <==> has_prefix(
                #[trigger] map[i].key_sequence@,
                p.push(c),
            )),
{
    let k = p.len() as int;
    let q = p.push(c);
    lemma_chord_rank_nonneg(c);
    assert forall|i: int| 0 <= i < map.len() implies (lo <= i < hi <==> has_prefix(
        #[trigger] map[i].key_sequence@,
        q,
    )) by {
        let s = map[i].key_sequence@;
        if has_prefix(s, q) {
            assert(s.subrange(0, k) =~= q.subrange(0, k));
            assert(q.subrange(0, k) =~= p);
            assert(has_prefix(s, p));
            assert(s[k] == s.subrange(0, k + 1)[k]);
            assert(s[k] == c);
        }
        if lo <= i < hi {
            assert(has_prefix(s, p));
            assert(rank_at(s, k) == chord_rank(c));
            assert(s.len() > k);
            lemma_chord_rank_injective(s[k], c);
            assert(s.subrange(0, k + 1) =~= s.subrange(0, k).push(s[k]));
        }
    }
}

/// In a sorted range of mappings that all start with `q`, the ones that are
/// exactly `q` come first.
proof fn lemma_full_first<E>(map: Seq<KeyMapping<E>>, q: Seq<KeyChord>, lo: int, hi: int, fe: int)
    requires
        mappings_sorted(map),
        0 <= lo <= fe <= hi <= map.len(),
        forall|i: int| lo <= i < hi ==> has_prefix(#[trigger] map[i].key_sequence@, q),
        forall|i: int| lo <= i < fe ==> (#[trigger] map[i].key_sequence@).len() <= q.len(),
        fe < hi ==> map[fe].key_sequence@.len() > q.len(),
    ensures
        forall|i: int|
            lo <= i < hi ==> (i < fe <==> (#[trigger] map[i].key_sequence@).len() == q.len()),
{
    assert forall|i: int| lo <= i < hi implies (i < fe <==> (
    #[trigger] map[i].key_sequence@).len() == q.len()) by {
        let s = map[i].key_sequence@;
        assert(has_prefix(s, q));
        if i > fe && s.len() == q.len() {
            let f = map[fe].key_sequence@;
            assert(has_prefix(f, q));
            assert(seq_compare(f, s) <= 0);
            assert(s.subrange(0, q.len() as int) =~= f.subrange(0, q.len() as int));
            lemma_compare_skip(f, s, q.len() as int);
            assert(s.skip(q.len() as int).len() == 0);
            assert(f.skip(q.len() as int).len() > 0);
        }
    }
}

impl<E> KeyMap<E> {
    /// The first position in `from..to` whose chord at position `k` ranks
    /// above `target`, found by bisection; exact when the range is ordered
    /// by that chord.
    fn partition_point(&self, from: usize, to: usize, k: usize, target: u64, strict: bool) -> (r:
        usize)
        requires
            from <= to <= self@.len(),
        ensures
            from <= r <= to,
            window_sorted(self@, from as int, to as int, k as int) ==> {
                &&& forall|i: int|
                    from <= i < r ==> !ranks_above(
                        #[trigger] self@[i].key_sequence@,
                        k as int,
                        target as int,
                        strict,
                    )
                &&& forall|i: int|
                    r <= i < to ==> ranks_above(
                        #[trigger] self@[i].key_sequence@,
                        k as int,
                        target as int,
                        strict,
                    )
            },
    {
        let mut lo = from;
        let mut hi = to;
        while lo < hi
            invariant
                from <= lo <= hi <= to <= self@.len(),
                self.0@ == self@,
                window_sorted(self@, from as int, to as int, k as int) ==> {
                    &&& forall|i: int|
                        from <= i < lo ==> !ranks_above(
                            #[trigger] self@[i].key_sequence@,
                            k as int,
                            target as int,
                            strict,
                        )
                    &&& forall|i: int|
                        hi <= i < to ==> ranks_above(
                            #[trigger] self@[i].key_sequence@,
                            k as int,
                            target as int,
                            strict,
                        )
                },
            decreases hi - lo,
        {
            let mid = lo + (hi - lo) / 2;
            let above = chord_ranks_above(&self.0[mid].key_sequence, k, target, strict);
            proof {
                if window_sorted(self@, from as int, to as int, k as int) {
                    let sm = self@[mid as int].key_sequence@;
                    if above {
                        assert forall|i: int| mid <= i < to implies ranks_above(
                            #[trigger] self@[i].key_sequence@,
                            k as int,
                            target as int,
                            strict,
                        ) by {
                            assert(rank_at(sm, k as int) <= rank_at(self@[i].key_sequence@, k as int));
                        }
                    } else {
                        assert forall|i: int| from <= i <= mid implies !ranks_above(
                            #[trigger] self@[i].key_sequence@,
                            k as int,
                            target as int,
                            strict,
                        ) by {
                            assert(rank_at(self@[i].key_sequence@, k as int) <= rank_at(sm, k as int));
                        }
                    }
                }
            }
            if above {
                hi = mid;
            } else {
                lo = mid + 1;
            }
        }
        lo
    }

    /// Narrows `prev_match` down by the next key chord pressed.
    ///
    /// Start from [`KeyMapMatch::new`] for the first key of a sequence and pass
    /// each result back in for the next key. When `prev_match` records keys
    /// `p` for this map (see [`records_keys`]), the result records `p` followed
    /// by `key_chord`; when no mapping starts with those keys, all three bounds
    /// of the result are `prev_match.match_start`. A `prev_match` made for
    /// another map gives a result of no meaning, but never a panic. The count of
    /// keys is a `u8`: at most 255 keys can be recorded.
    pub fn match_key(&self, key_chord: KeyChord, prev_match: KeyMapMatch) -> (r: KeyMapMatch)
        requires
            prev_match.next_key_idx < 255,
        ensures
            key_match_step(self@, key_chord, prev_match, r),
    {
        proof {
            use_type_invariant(self);
        }
        let len = self.0.len();
        let k = prev_match.next_key_idx as usize;
        let next: u8 = prev_match.next_key_idx + 1;
        let none = KeyMapMatch {
            match_start: prev_match.match_start,
            match_end: prev_match.match_start,
            full_match_end: prev_match.match_start,
            next_key_idx: next,
        };
        let from = prev_match.match_start as usize;
        let to = if (prev_match.match_end as usize) < len {
            prev_match.match_end as usize
        } else {
            len
        };
        if from >= to {
            proof {
                assert forall|p: Seq<KeyChord>|
                    #![trigger records_keys(prev_match, self@, p)]
                    self@.len() <= 65535 && records_keys(
                        prev_match,
                        self@,
                        p,
                    ) implies records_keys(none, self@, p.push(key_chord)) by {
                    assert forall|i: int| 0 <= i < self@.len() implies !has_prefix(
                        #[trigger] self@[i].key_sequence@,
                        p.push(key_chord),
                    ) by {
                        let s = self@[i].key_sequence@;
                        if has_prefix(s, p.push(key_chord)) {
                            lemma_prefix_of_push(s, p, key_chord);
                        }
                    }
                }
            }
            return none;
        }
        let target = key_chord.rank();
        let lo = self.partition_point(from, to, k, target, false);
        let hi = self.partition_point(lo, to, k, target, true);
        let ghost cond = self@.len() <= 65535;
        proof {
            assert forall|p: Seq<KeyChord>|
                #![trigger records_keys(prev_match, self@, p)]
                cond && records_keys(prev_match, self@, p) implies forall|i: int|
                0 <= i < self@.len() ==> (lo <= i < hi <==> has_prefix(
                    #[trigger] self@[i].key_sequence@,
                    p.push(key_chord),
                )) by {
                lemma_window_sorted(self@, from as int, to as int, p);
                assert(window_sorted(self@, lo as int, to as int, k as int));
                lemma_narrowed(self@, p, key_chord, from as int, to as int, lo as int, hi as int);
            }
        }
        if lo >= hi {
            return none;
        }
        let mut fe = lo;
        while fe < hi && self.0[fe].key_sequence.len() <= k + 1
            invariant
                lo <= fe <= hi <= to <= len == self@.len(),
                self.0@ == self@,
                k <= 255,
                forall|i: int| lo <= i < fe ==> (#[trigger] self@[i].key_sequence@).len() <= k + 1,
            decreases hi - fe,
        {
            fe += 1;
        }
        let r = KeyMapMatch {
            match_start: lo as u16,
            match_end: hi as u16,
            full_match_end: fe as u16,
            next_key_idx: next,
        };
        proof {
            assert forall|p: Seq<KeyChord>|
                #![trigger records_keys(prev_match, self@, p)]
                cond && records_keys(prev_match, self@, p) implies records_keys(
                r,
                self@,
                p.push(key_chord),
            ) && has_prefix(self@[lo as int].key_sequence@, p.push(key_chord)) by {
                let q = p.push(key_chord);
                assert(r.match_start == lo && r.match_end == hi && r.full_match_end == fe);
                assert(window_end(r, self@.len() as int) == hi);
                lemma_full_first(self@, q, lo as int, hi as int, fe as int);
                assert(has_prefix(self@[lo as int].key_sequence@, q));
            }
            assert(r.match_end <= self@.len());
        }
        r
    }
}

/// Before any key is pressed, the blank match records no keys, so that
/// every mapping matches.
pub proof fn lemma_blank_records_nothing<E>(map: Seq<KeyMapping<E>>)
    requires
        map.len() <= 65535,
    ensures
        records_keys(KeyMapMatch::blank(), map, Seq::empty()),
{
    assert forall|i: int| 0 <= i < map.len() implies has_prefix(
        #[trigger] map[i].key_sequence@,
        Seq::<KeyChord>::empty(),
    ) by {
        assert(map[i].key_sequence@.subrange(0, 0) =~= Seq::<KeyChord>::empty());
    }
}

/// When a match records the keys `pressed`, `matches` returns exactly the
/// mappings whose key sequence starts with them; once a key was pressed,
/// `full_matches` returns those whose key sequence is exactly them, and
/// `partial_matches` those whose key sequence is longer.
pub proof fn lemma_match_ranges<E>(m: KeyMapMatch, map: Seq<KeyMapping<E>>, pressed: Seq<KeyChord>)
    requires
        records_keys(m, map, pressed),
    ensures
        forall|i: int|
            0 <= i < map.len() ==> (matches_range(m, map.len() as int).0 <= i < matches_range(
                m,
                map.len() as int,
            ).1 <==> has_prefix(#[trigger] map[i].key_sequence@, pressed)),
        pressed.len() > 0 ==> forall|i: int|
            0 <= i < map.len() ==> (full_matches_range(m, map.len() as int).0 <= i
                < full_matches_range(m, map.len() as int).1 <==> #[trigger] map[i].key_sequence@
                == pressed),
        pressed.len() > 0 ==> forall|i: int|
            0 <= i < map.len() ==> (partial_matches_range(m, map.len() as int).0 <= i
                < partial_matches_range(m, map.len() as int).1 <==> has_prefix(
                #[trigger] map[i].key_sequence@,
                pressed,
            ) && map[i].key_sequence@.len() > pressed.len()),
{
    if pressed.len() > 0 {
        assert forall|i: int| 0 <= i < map.len() implies (full_matches_range(m, map.len() as int).0
            <= i < full_matches_range(m, map.len() as int).1 <==> #[trigger] map[i].key_sequence@
            == pressed) by {
            let s = map[i].key_sequence@;
            if s == pressed {
                assert(s.subrange(0, pressed.len() as int) =~= s);
                assert(has_prefix(s, pressed));
            }
            if has_prefix(s, pressed) && s.len() == pressed.len() {
                assert(s.subrange(0, pressed.len() as int) =~= s);
            }
        }
    }
}


/// Whether `ms` are the matches that [`KeyMap::match_key`] gives on `map`
/// from the blank match when it is called with the keys `ks` in turn:
/// `ms[i + 1]` is what the call with `ks[i]` on `ms[i]` gives.
pub open spec fn match_chain<E>(map: Seq<KeyMapping<E>>, ks: Seq<KeyChord>, ms: Seq<KeyMapMatch>) -> bool {
    &&& ms.len() == ks.len() + 1
    &&& ms[0] == KeyMapMatch::blank()
    &&& forall|i: int| 0 <= i < ks.len() ==> key_match_step(map, ks[i], ms[i], #[trigger] ms[i + 1])
}

/// After the keys `ks` were matched one by one from the blank match, the
/// last match counts them; `matches` returns exactly the mappings whose key
/// sequence starts with them, `full_matches` (a leading part of `matches`)
/// those whose key sequence is exactly them, and `partial_matches` those
/// whose key sequence is longer.
pub proof fn lemma_match_chain<E>(map: Seq<KeyMapping<E>>, ks: Seq<KeyChord>, ms: Seq<KeyMapMatch>)
    requires
        map.len() <= 65535,
        match_chain(map, ks, ms),
    ensures
        records_keys(ms.last(), map, ks),
        ms.last().next_key_idx == ks.len(),
        ms.last().match_start <= ms.last().match_end,
        forall|i: int|
            0 <= i < map.len() ==> (matches_range(ms.last(), map.len() as int).0 <= i
                < matches_range(ms.last(), map.len() as int).1 <==> has_prefix(
                #[trigger] map[i].key_sequence@,
                ks,
            )),
        ks.len() > 0 ==> full_matches_range(ms.last(), map.len() as int).0 == matches_range(
            ms.last(),
            map.len() as int,
        ).0 && full_matches_range(ms.last(), map.len() as int).1 <= matches_range(
            ms.last(),
            map.len() as int,
        ).1,
        ks.len() > 0 ==> forall|i: int|
            0 <= i < map.len() ==> (full_matches_range(ms.last(), map.len() as int).0 <= i
                < full_matches_range(ms.last(), map.len() as int).1 <==> #[trigger] map[i].key_sequence@
                == ks),
        ks.len() > 0 ==> forall|i: int|
            0 <= i < map.len() ==> (partial_matches_range(ms.last(), map.len() as int).0 <= i
                < partial_matches_range(ms.last(), map.len() as int).1 <==> has_prefix(
                #[trigger] map[i].key_sequence@,
                ks,
            ) && map[i].key_sequence@.len() > ks.len()),
    decreases ks.len(),
{
    if ks.len() == 0 {
        lemma_blank_records_nothing(map);
        assert(ks =~= Seq::<KeyChord>::empty());
    } else {
        let ks0 = ks.drop_last();
        let ms0 = ms.drop_last();
        assert forall|i: int| 0 <= i < ks0.len() implies key_match_step(
            map,
            ks0[i],
            ms0[i],
            #[trigger] ms0[i + 1],
        ) by {
            assert(ks0[i] == ks[i]);
            assert(ms0[i] == ms[i]);
            assert(ms0[i + 1] == ms[i + 1]);
        }
        lemma_match_chain(map, ks0, ms0);
        let prev = ms0.last();
        let last = ks.len() - 1;
        assert(ms[last] == prev);
        assert(key_match_step(map, ks[last], ms[last], ms[last + 1]));
        assert(ks0.push(ks[last]) =~= ks);
        assert(records_keys(prev, map, ks0));
        assert(ms.last() == ms[last + 1]);
        assert(records_keys(ms.last(), map, ks));
    }
    lemma_match_ranges(ms.last(), map, ks);
}

} // verus!
