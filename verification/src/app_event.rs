//! The events of the application and the actions that key sequences can be
//! bound to in the configuration.

use vstd::prelude::*;

use crate::event;
use crate::key_config::Action;
use crate::key_handler::EventFlow;

verus! {

/// A direction in which the cursor can move.
#[derive(Debug, Clone, Copy, PartialEq, Eq, Structural)]
pub enum Direction {
    Up,
    Down,
    Left,
    Right,
}

impl Direction {
    /// Horizontal component of the direction.
    pub open spec fn spec_x(self) -> int {
        match self {
            Direction::Left => -1,
            Direction::Right => 1,
            _ => 0,
        }
    }

    /// Vertical component of the direction.
    pub open spec fn spec_y(self) -> int {
        match self {
            Direction::Up => -1,
            Direction::Down => 1,
            _ => 0,
        }
    }

    /// Horizontal step: -1 for left, 1 for right, 0 otherwise.
    pub fn x(self) -> (r: i16)
        ensures
            r == self.spec_x(),
    {
        match self {
            Direction::Left => -1,
            Direction::Right => 1,
            _ => 0,
        }
    }

    /// Vertical step: -1 for up, 1 for down, 0 otherwise.
    pub fn y(self) -> (r: i16)
        ensures
            r == self.spec_y(),
    {
        match self {
            Direction::Up => -1,
            Direction::Down => 1,
            _ => 0,
        }
    }
}

/// An event of the application.
#[derive(Debug, Clone, PartialEq, Eq, Structural)]
pub enum AppEvent {
    Quit,
    MoveCursor(Direction),
}

impl event::AppEvent for AppEvent {
    open spec fn spec_is_quit(&self) -> bool {
        *self == AppEvent::Quit
    }

    fn is_quit(&self) -> (r: bool) {
        match self {
            AppEvent::Quit => true,
            _ => false,
        }
    }
}

/// An action that a key sequence can be bound to in the configuration.
#[derive(Debug, Clone, Copy, PartialEq, Eq, Structural, Hash)]
pub enum InputAction {
    Quit,
    CursorUp,
    CursorDown,
    CursorLeft,
    CursorRight,
}

/// The application event of an action.
pub open spec fn action_event(a: InputAction) -> AppEvent {
    match a {
        InputAction::Quit => AppEvent::Quit,
        InputAction::CursorUp => AppEvent::MoveCursor(Direction::Up),
        InputAction::CursorDown => AppEvent::MoveCursor(Direction::Down),
        InputAction::CursorLeft => AppEvent::MoveCursor(Direction::Left),
        InputAction::CursorRight => AppEvent::MoveCursor(Direction::Right),
    }
}

impl From<InputAction> for AppEvent {
    fn from(value: InputAction) -> (r: AppEvent) {
        match value {
            InputAction::Quit => AppEvent::Quit,
            InputAction::CursorUp => AppEvent::MoveCursor(Direction::Up),
            InputAction::CursorDown => AppEvent::MoveCursor(Direction::Down),
            InputAction::CursorLeft => AppEvent::MoveCursor(Direction::Left),
            InputAction::CursorRight => AppEvent::MoveCursor(Direction::Right),
        }
    }
}

impl vstd::std_specs::convert::FromSpecImpl<InputAction> for AppEvent {
    open spec fn obeys_from_spec() -> bool {
        true
    }

    open spec fn from_spec(v: InputAction) -> AppEvent {
        action_event(v)
    }
}

impl Action for InputAction {
    type AppEvent = AppEvent;

    open spec fn spec_app_event(&self) -> AppEvent {
        action_event(*self)
    }

    fn into_app_event(&self) -> (r: AppEvent) {
        AppEvent::from(*self)
    }
}

/// The offset after a move in `direction`: one row up or down, held within
/// `0..=u16::MAX`; a sideways move leaves it.
pub open spec fn scrolled_offset_spec(offset: u16, direction: Direction) -> int {
    if offset + direction.spec_y() < 0 {
        0
    } else if offset + direction.spec_y() > u16::MAX {
        u16::MAX as int
    } else {
        offset + direction.spec_y()
    }
}

/// The offset after a move in `direction` (see [`scrolled_offset_spec`]).
pub fn scrolled_offset(offset: u16, direction: Direction) -> (r: u16)
    ensures
        r == scrolled_offset_spec(offset, direction),
{
    let dy = direction.y();
    if dy < 0 {
        if offset == 0 {
            0
        } else {
            offset - 1
        }
    } else if dy > 0 {
        if offset == u16::MAX {
            u16::MAX
        } else {
            offset + 1
        }
    } else {
        offset
    }
}


/// How the library view reacts to an event, given its vertical scroll
/// offset: a cursor move scrolls it (see [`scrolled_offset`]) and is
/// consumed; any other event leaves the offset and is passed on.
pub fn library_scroll(event: &event::Event<AppEvent>, offset_y: u16) -> (r: (EventFlow, u16))
    ensures
        match *event {
            event::Event::App(AppEvent::MoveCursor(d)) => r.0 == EventFlow::Consume && r.1
                == scrolled_offset_spec(offset_y, d),
            _ => r.0 == EventFlow::Propagate && r.1 == offset_y,
        },
{
    match event {
        event::Event::App(AppEvent::MoveCursor(direction)) => (
            EventFlow::Consume,
            scrolled_offset(offset_y, *direction),
        ),
        _ => (EventFlow::Propagate, offset_y),
    }
}


/// Width of an album card in the library view, in cells.
pub const CARD_WIDTH: u16 = 22;

/// Height of an album card in the library view, in cells.
pub const CARD_HEIGHT: u16 = 14;

/// Gap between two album cards side by side, in cells.
pub const CARD_HORIZONTAL_GAP: u16 = 3;

/// Gap between two rows of album cards, in cells.
pub const CARD_VERTICAL_GAP: u16 = 1;

/// How many album cards fit in the library view: across its width and down
/// its height, each card taking its size and one gap.
pub fn cards_that_fit(width: u16, height: u16) -> (r: (usize, usize))
    ensures
        r.0 == width as int / (CARD_WIDTH + CARD_HORIZONTAL_GAP) as int,
        r.1 == height as int / (CARD_HEIGHT + CARD_VERTICAL_GAP) as int,
{
    (
        (width / (CARD_WIDTH + CARD_HORIZONTAL_GAP)) as usize,
        (height / (CARD_HEIGHT + CARD_VERTICAL_GAP)) as usize,
    )
}

/// The album card shown in column `x` of row `y` when `per_row` cards fit
/// across: the cards fill the rows from left to right, one row after the
/// other; `None` once the `count` cards have run out.
pub fn card_index(x: usize, y: usize, per_row: usize, count: usize) -> (r: Option<usize>)
    requires
        x + y * per_row <= usize::MAX,
    ensures
        r == (if x + y * per_row < count {
            Some((x + y * per_row) as usize)
        } else {
            None::<usize>
        }),
{
    proof {
        assert(0 <= y * per_row) by (nonlinear_arith);
    }
    let i = x + y * per_row;
    if i < count {
        Some(i)
    } else {
        None
    }
}


/// Moving down scrolls one row further unless the offset is at its
/// largest, moving up one row back unless it is at the top, and a sideways
/// move leaves the offset.
pub proof fn lemma_scroll_steps(offset: u16)
    ensures
        scrolled_offset_spec(offset, Direction::Down) == if offset < u16::MAX {
            offset + 1
        } else {
            offset as int
        },
        scrolled_offset_spec(offset, Direction::Up) == if offset > 0 {
            offset - 1
        } else {
            0
        },
        scrolled_offset_spec(offset, Direction::Left) == offset,
        scrolled_offset_spec(offset, Direction::Right) == offset,
{
}

} // verus!
