//! The key configuration: for each action, one key sequence or several,
//! from which the key map is generated.

use vstd::prelude::*;

use crate::key_chord::KeyChord;
use crate::key_map::{mapping_view, mappings_sorted, KeyMap, KeyMapping};
use crate::key_sequence::KeySequence;

verus! {

/// An action that a key sequence can be bound to, and the application event
/// it stands for.
pub trait Action {
    type AppEvent;

    /// The event this action stands for.
    spec fn spec_app_event(&self) -> Self::AppEvent;

    /// The event this action stands for.
    fn into_app_event(&self) -> (r: Self::AppEvent)
        ensures
            r == self.spec_app_event(),
    ;
}

/// One value, or a list of them.
#[derive(Debug)]
pub enum OneOrMany<T> {
    One(T),
    Many(Vec<T>),
}

impl<T> OneOrMany<T> {
    /// The values, in order.
    pub open spec fn items(&self) -> Seq<T> {
        match self {
            OneOrMany::One(item) => seq![*item],
            OneOrMany::Many(items) => items@,
        }
    }

    /// Number of values.
    pub fn len(&self) -> (r: usize)
        ensures
            r == self.items().len(),
    {
        match self {
            OneOrMany::One(_) => 1,
            OneOrMany::Many(items) => items.len(),
        }
    }

    /// The value at `index`, if there is one.
    pub fn get(&self, index: usize) -> (r: Option<&T>)
        ensures
            index < self.items().len() ==> r == Some(&self.items()[index as int]),
            index >= self.items().len() ==> r is None,
    {
        match self {
            OneOrMany::One(item) => if index == 0 {
                Some(item)
            } else {
                None
            },
            OneOrMany::Many(items) => if index < items.len() {
                Some(&items[index])
            } else {
                None
            },
        }
    }
}

/// An action and the key sequences bound to it.
#[derive(Debug)]
pub struct InputMapping<A> {
    pub action: A,
    pub inputs: OneOrMany<KeySequence>,
}

impl<A> InputMapping<A> {
    /// The key sequences `inputs` bound to `action`.
    pub fn new(action: A, inputs: OneOrMany<KeySequence>) -> (r: InputMapping<A>)
        ensures
            r.action == action,
            r.inputs == inputs,
    {
        InputMapping { action, inputs }
    }
}

/// The bindings of actions to key sequences, in the order of the configuration.
#[derive(Debug)]
pub struct KeyConfig<A>(pub Vec<InputMapping<A>>);

impl<A> Default for KeyConfig<A> {
    fn default() -> (r: KeyConfig<A>)
        ensures
            r.0@.len() == 0,
    {
        KeyConfig(Vec::new())
    }
}

/// Each key sequence of the configuration with the event of its action, in
/// the order of the configuration.
pub open spec fn bound_sequences<A: Action>(ms: Seq<InputMapping<A>>) -> Seq<
    (Seq<KeyChord>, A::AppEvent),
>
    decreases ms.len(),
{
    if ms.len() == 0 {
        Seq::empty()
    } else {
        bound_sequences(ms.drop_last()) + ms.last().inputs.items().map_values(
            |s: KeySequence| (s@, ms.last().action.spec_app_event()),
        )
    }
}

impl<A: Action> KeyConfig<A> {
    /// The key map of the configuration: every key sequence mapped to the
    /// event of its action, sorted by key sequence.
    pub fn generate_key_map(&self) -> (r: KeyMap<A::AppEvent>)
        ensures
            mappings_sorted(r@),
            r@.map_values(|m: KeyMapping<A::AppEvent>| mapping_view(m)).to_multiset()
                == bound_sequences(self.0@).to_multiset(),
    {
        let ghost f = |m: KeyMapping<A::AppEvent>| mapping_view(m);
        let mut vec: Vec<KeyMapping<A::AppEvent>> = Vec::new();
        let mut i: usize = 0;
        while i < self.0.len()
            invariant
                i <= self.0@.len(),
                f == (|m: KeyMapping<A::AppEvent>| mapping_view(m)),
                vec@.map_values(f) == bound_sequences(self.0@.subrange(0, i as int)),
            decreases self.0.len() - i,
        {
            let input_mapping = &self.0[i];
            let ghost items = input_mapping.inputs.items();
            let ghost g = |s: KeySequence| (s@, input_mapping.action.spec_app_event());
            let ghost start = vec@.map_values(f);
            let mut j: usize = 0;
            while j < input_mapping.inputs.len()
                invariant
                    j <= items.len(),
                    items == input_mapping.inputs.items(),
                    f == (|m: KeyMapping<A::AppEvent>| mapping_view(m)),
                    g == (|s: KeySequence| (s@, input_mapping.action.spec_app_event())),
                    vec@.map_values(f) == start + items.subrange(0, j as int).map_values(g),
                decreases items.len() - j,
            {
                let input = input_mapping.inputs.get(j).unwrap();
                let mapping = KeyMapping::new(input.duplicate(), input_mapping.action.into_app_event());
                let ghost before = vec@;
                vec.push(mapping);
                proof {
                    assert(vec@.map_values(f) =~= before.map_values(f).push(f(mapping)));
                    assert(items.subrange(0, j + 1).map_values(g) =~= items.subrange(
                        0,
                        j as int,
                    ).map_values(g).push(g(items[j as int])));
                }
                j += 1;
            }
            proof {
                let ms = self.0@.subrange(0, i + 1);
                assert(ms.drop_last() =~= self.0@.subrange(0, i as int));
                assert(ms.last() == self.0@[i as int]);
                assert(items.subrange(0, items.len() as int) =~= items);
            }
            i += 1;
        }
        proof {
            assert(self.0@.subrange(0, self.0@.len() as int) =~= self.0@);
        }
        KeyMap::from(vec)
    }
}

} // verus!
