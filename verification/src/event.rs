//! Events as the terminal application sees them, and the decisions it takes
//! on them itself.

use vstd::prelude::*;

use crate::key_chord::{KeyCode, KeyEvent, KeyModifiers};

verus! {

/// An event type of an application: it tells which of its events quits.
pub trait AppEvent {
    /// Whether this event quits the application.
    spec fn spec_is_quit(&self) -> bool;

    /// Whether this event quits the application.
    fn is_quit(&self) -> (r: bool)
        ensures
            r == self.spec_is_quit(),
    ;
}

/// What a key press does to the application before any component sees it.
#[derive(Debug, Clone, Copy, PartialEq, Eq, Structural)]
pub enum SpecialKey {
    /// Control-c: quit.
    Quit,
    /// Control-z: suspend to the shell.
    Suspend,
    /// Anything else.
    Nothing,
}

/// What a key press does before any component sees it: control-c quits and
/// control-z suspends; the modifiers must be exactly control.
pub open spec fn spec_special_key(key_event: KeyEvent) -> SpecialKey {
    if key_event.modifiers.bits == 2 && key_event.code == KeyCode::Char('c') {
        SpecialKey::Quit
    } else if key_event.modifiers.bits == 2 && key_event.code == KeyCode::Char('z') {
        SpecialKey::Suspend
    } else {
        SpecialKey::Nothing
    }
}

/// What a key press does before any component sees it (see
/// [`spec_special_key`]).
pub fn special_key(key_event: KeyEvent) -> (r: SpecialKey)
    ensures
        r == spec_special_key(key_event),
{
    match key_event.code {
        KeyCode::Char('c') if key_event.modifiers.bits == 2 => SpecialKey::Quit,
        KeyCode::Char('z') if key_event.modifiers.bits == 2 => SpecialKey::Suspend,
        _ => SpecialKey::Nothing,
    }
}

/// The last reported position of the mouse cursor.
#[derive(Debug, Clone, Copy, PartialEq, Eq, Structural)]
pub struct CursorPos {
    pub x: u16,
    pub y: u16,
}

impl Default for CursorPos {
    /// Before any report the position is off the screen.
    fn default() -> (r: CursorPos)
        ensures
            r.x == u16::MAX && r.y == u16::MAX,
    {
        CursorPos { x: u16::MAX, y: u16::MAX }
    }
}


/// Where an event is delivered.
#[derive(Debug, Clone, Copy, PartialEq, Eq, Structural)]
pub enum Dispatch {
    /// To the focused component, bubbling up to its parents.
    Input,
    /// To every component.
    Broadcast,
    /// To the component under the terminal cell at `x`, `y`.
    Cursor { x: u16, y: u16 },
    /// To the component with this entity id.
    Target(u64),
}

/// A mouse report: the terminal cell it happened at.
#[derive(Debug, Clone, Copy, PartialEq, Eq, Structural)]
pub struct MouseEvent {
    pub column: u16,
    pub row: u16,
}

/// An event of the terminal.
#[derive(Debug, Clone, PartialEq, Eq)]
pub enum TerminalEvent {
    FocusGained,
    FocusLost,
    Key(KeyEvent),
    Mouse(MouseEvent),
    Paste(String),
    Resize(u16, u16),
}

/// An event of the application loop; times are in nanoseconds.
#[derive(Debug, Clone)]
pub enum Event<E> {
    Tick(u128),
    Render(u128),
    App(E),
    FocusGained,
    FocusLost,
    Key(KeyEvent),
    Mouse(MouseEvent),
    Paste(String),
    Resize { width: u16, height: u16 },
}

/// An event together with where it goes.
#[derive(Debug, Clone)]
pub struct EventDispatch<E> {
    pub dispatch: Dispatch,
    pub event: Event<E>,
}

/// Where a terminal event goes and what it becomes: focus changes and
/// resizes go to every component, key presses and pastes to the focused one,
/// and a mouse report to the component under the mouse.
pub fn route_terminal_event<E>(evt: TerminalEvent) -> (r: EventDispatch<E>)
    ensures
        match evt {
            TerminalEvent::FocusGained => r.dispatch == Dispatch::Broadcast && r.event is FocusGained,
            TerminalEvent::FocusLost => r.dispatch == Dispatch::Broadcast && r.event is FocusLost,
            TerminalEvent::Key(k) => r.dispatch == Dispatch::Input && r.event == Event::<E>::Key(k),
            TerminalEvent::Mouse(m) => r.dispatch == (Dispatch::Cursor { x: m.column, y: m.row })
                && r.event == Event::<E>::Mouse(m),
            TerminalEvent::Paste(s) => r.dispatch == Dispatch::Input && r.event == Event::<E>::Paste(
                s,
            ),
            TerminalEvent::Resize(width, height) => r.dispatch == Dispatch::Broadcast && r.event
                == Event::<E>::Resize { width, height },
        },
{
    match evt {
        TerminalEvent::FocusGained => EventDispatch {
            dispatch: Dispatch::Broadcast,
            event: Event::FocusGained,
        },
        TerminalEvent::FocusLost => EventDispatch {
            dispatch: Dispatch::Broadcast,
            event: Event::FocusLost,
        },
        TerminalEvent::Key(key_event) => EventDispatch {
            dispatch: Dispatch::Input,
            event: Event::Key(key_event),
        },
        TerminalEvent::Mouse(mouse_event) => EventDispatch {
            dispatch: Dispatch::Cursor { x: mouse_event.column, y: mouse_event.row },
            event: Event::Mouse(mouse_event),
        },
        TerminalEvent::Paste(s) => EventDispatch { dispatch: Dispatch::Input, event: Event::Paste(s) },
        TerminalEvent::Resize(width, height) => EventDispatch {
            dispatch: Dispatch::Broadcast,
            event: Event::Resize { width, height },
        },
    }
}

/// The state of the application loop: whether it is to stop, and whether it
/// is to suspend to the shell once the pending events are handled.
#[derive(Debug, Clone, Copy, PartialEq, Eq, Structural)]
pub struct AppControl {
    pub should_quit: bool,
    pub should_suspend: bool,
}

impl AppControl {
    /// Running, not suspending.
    pub fn new() -> (r: AppControl)
        ensures
            !r.should_quit && !r.should_suspend,
    {
        AppControl { should_quit: false, should_suspend: false }
    }

    /// Reacts to an event that no component consumed, and says whether the
    /// screen is to be drawn: a render event draws, control-c quits,
    /// control-z suspends, an application event that quits quits; anything
    /// else changes nothing.
    pub fn handle_propagated_event<E: AppEvent>(&mut self, event: &Event<E>) -> (draw: bool)
        ensures
            draw == (*event is Render),
            final(self).should_quit == (old(self).should_quit || match *event {
                Event::Key(k) => spec_special_key(k) == SpecialKey::Quit,
                Event::App(e) => e.spec_is_quit(),
                _ => false,
            }),
            final(self).should_suspend == (old(self).should_suspend || match *event {
                Event::Key(k) => spec_special_key(k) == SpecialKey::Suspend,
                _ => false,
            }),
    {
        match event {
            Event::Render(_) => true,
            Event::Key(key_event) => {
                match special_key(*key_event) {
                    SpecialKey::Quit => self.should_quit = true,
                    SpecialKey::Suspend => self.should_suspend = true,
                    SpecialKey::Nothing => {},
                }
                false
            },
            Event::App(app_event) => {
                if app_event.is_quit() {
                    self.should_quit = true;
                }
                false
            },
            _ => false,
        }
    }

    /// Whether to suspend now; the request is cleared.
    pub fn take_suspend(&mut self) -> (r: bool)
        ensures
            r == old(self).should_suspend,
            !final(self).should_suspend,
            final(self).should_quit == old(self).should_quit,
    {
        let r = self.should_suspend;
        self.should_suspend = false;
        r
    }
}


/// Application events that systems queue while they run, handed out in the
/// order they were queued.
#[derive(Debug)]
pub struct EventQueue<E>(std::collections::VecDeque<EventDispatch<E>>);

impl<E> View for EventQueue<E> {
    type V = Seq<EventDispatch<E>>;

    closed spec fn view(&self) -> Seq<EventDispatch<E>> {
        self.0@
    }
}

impl<E> Default for EventQueue<E> {
    /// An empty queue.
    fn default() -> (r: EventQueue<E>)
        ensures
            r@ == Seq::<EventDispatch<E>>::empty(),
    {
        EventQueue(std::collections::VecDeque::new())
    }
}

impl<E> EventQueue<E> {
    /// Queues `app_event` as an application event sent to `dispatch`.
    pub fn push(&mut self, dispatch: Dispatch, app_event: E)
        ensures
            final(self)@ == old(self)@.push(EventDispatch { dispatch, event: Event::App(app_event) }),
    {
        self.0.push_back(EventDispatch { dispatch, event: Event::App(app_event) });
    }

    /// Takes the event queued first, if any.
    pub fn pop(&mut self) -> (r: Option<EventDispatch<E>>)
        ensures
            old(self)@.len() == 0 ==> r is None && final(self)@ == old(self)@,
            old(self)@.len() > 0 ==> r == Some(old(self)@[0]) && final(self)@ == old(self)@.drop_first(),
    {
        let r = self.0.pop_front();
        proof {
            if r is Some {
                assert(old(self)@.drop_first() =~= old(self)@.subrange(1, old(self)@.len() as int));
            }
        }
        r
    }
}


/// Control-c and control-z are the only special keys: with exactly the
/// control modifier held, `c` quits and `z` suspends; every other key press
/// does nothing before the components see it.
pub proof fn lemma_special_keys(e: KeyEvent)
    ensures
        spec_special_key(e) == SpecialKey::Quit <==> (e.code == KeyCode::Char('c') && e.modifiers
            == KeyModifiers { bits: 2 }),
        spec_special_key(e) == SpecialKey::Suspend <==> (e.code == KeyCode::Char('z')
            && e.modifiers == KeyModifiers { bits: 2 }),
        spec_special_key(e) == SpecialKey::Nothing <==> !(e.modifiers == KeyModifiers { bits: 2 } && (
        e.code == KeyCode::Char('c') || e.code == KeyCode::Char('z'))),
{
}

} // verus!
