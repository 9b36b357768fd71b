use zankyou::app_event::AppEvent;
use zankyou::event::{
    route_terminal_event, special_key, AppControl, CursorPos, Dispatch, Event, EventQueue,
    MouseEvent, SpecialKey, TerminalEvent,
};
use zankyou::key_chord::{KeyCode, KeyEvent, KeyModifiers};

fn ctrl(c: char) -> KeyEvent {
    KeyEvent { code: KeyCode::Char(c), modifiers: KeyModifiers::control() }
}

#[test]
fn special_keys() {
    assert_eq!(special_key(ctrl('c')), SpecialKey::Quit);
    assert_eq!(special_key(ctrl('z')), SpecialKey::Suspend);
    assert_eq!(
        special_key(KeyEvent {
            code: KeyCode::Char('c'),
            modifiers: KeyModifiers::control().union(KeyModifiers::shift()),
        }),
        SpecialKey::Nothing
    );
    assert_eq!(
        special_key(KeyEvent { code: KeyCode::Char('c'), modifiers: KeyModifiers::none() }),
        SpecialKey::Nothing
    );
}

#[test]
fn cursor_pos_default_is_off_screen() {
    let p = CursorPos::default();
    assert_eq!((p.x, p.y), (u16::MAX, u16::MAX));
}

#[test]
fn routing_of_terminal_events() {
    let r = route_terminal_event::<AppEvent>(TerminalEvent::Mouse(MouseEvent { column: 3, row: 9 }));
    assert_eq!(r.dispatch, Dispatch::Cursor { x: 3, y: 9 });
    assert!(matches!(r.event, Event::Mouse(MouseEvent { column: 3, row: 9 })));
    let r = route_terminal_event::<AppEvent>(TerminalEvent::Key(ctrl('a')));
    assert_eq!(r.dispatch, Dispatch::Input);
    let r = route_terminal_event::<AppEvent>(TerminalEvent::Resize(80, 24));
    assert_eq!(r.dispatch, Dispatch::Broadcast);
    assert!(matches!(r.event, Event::Resize { width: 80, height: 24 }));
    let r = route_terminal_event::<AppEvent>(TerminalEvent::Paste("hi".to_string()));
    assert_eq!(r.dispatch, Dispatch::Input);
    assert!(matches!(r.event, Event::Paste(ref s) if s == "hi"));
    let r = route_terminal_event::<AppEvent>(TerminalEvent::FocusLost);
    assert_eq!(r.dispatch, Dispatch::Broadcast);
    assert!(matches!(r.event, Event::FocusLost));
}

#[test]
fn app_control_reacts_to_events() {
    let mut control = AppControl::new();
    assert!(control.handle_propagated_event(&Event::<AppEvent>::Render(0)));
    assert!(!control.should_quit && !control.should_suspend);
    assert!(!control.handle_propagated_event(&Event::<AppEvent>::Key(ctrl('z'))));
    assert!(control.should_suspend && !control.should_quit);
    assert!(control.take_suspend());
    assert!(!control.take_suspend());
    assert!(!control.handle_propagated_event(&Event::App(AppEvent::MoveCursor(
        zankyou::app_event::Direction::Up
    ))));
    assert!(!control.should_quit);
    control.handle_propagated_event(&Event::App(AppEvent::Quit));
    assert!(control.should_quit);
    let mut control = AppControl::new();
    control.handle_propagated_event(&Event::<AppEvent>::Key(ctrl('c')));
    assert!(control.should_quit);
}

#[test]
fn event_queue_is_first_in_first_out() {
    let mut queue: EventQueue<u8> = EventQueue::default();
    assert!(queue.pop().is_none());
    queue.push(Dispatch::Input, 1);
    queue.push(Dispatch::Target(7), 2);
    let first = queue.pop().unwrap();
    assert_eq!(first.dispatch, Dispatch::Input);
    assert!(matches!(first.event, Event::App(1)));
    let second = queue.pop().unwrap();
    assert_eq!(second.dispatch, Dispatch::Target(7));
    assert!(matches!(second.event, Event::App(2)));
    assert!(queue.pop().is_none());
}
