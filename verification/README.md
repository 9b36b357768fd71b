# zankyou

The key handling and control commands of a terminal music player, written in
Verus and proved against their contracts.

- `src/key_chord.rs`: key chords (a key with modifiers), their normal form,
  their text form (`A-a`, `D-A-C-S-Space`, `S-F10`) and reading it back.
- `src/key_sequence.rs`: sequences of chords and their text form
  (`<Space><C-w><Left>h<Esc>`).
- `src/key_map.rs`: key maps sorted by key sequence, narrowed down one key at
  a time by binary search.
- `src/key_handler.rs`: the handler that turns key presses and clock ticks
  into application events.
- `src/key_config.rs`, `src/app_event.rs`: the key configuration and the
  application's actions and events.
- `src/event.rs`: routing of terminal events, the application loop's own
  decisions, and the queue of application events.
- `src/parser.rs`, `src/command.rs`: the `key=value` argument parser and the
  control commands (`album list`, `album list-tracks id=5`).
- `src/config_manager.rs`: where the configuration comes from.
- `src/text.rs`: character helpers shared by the parsers.

`app/` holds what talks to the outside: the `zankyouctl` client and its
socket, the TOML configuration file read through serde, and the conversion of
the terminal library's events.

The terminal application itself (reading the configuration, building the
component tree, running the event loop and drawing) is not part of this
crate: it rests on bevy_ecs, tokio, ratatui, color_eyre and clap, and on
the application's ECS root (`Area`, `Viewport`, `ComponentSystem`), its
terminal module and its command line, none of which this crate contains.
What that code decides is here as plain functions: `route_terminal_event`,
`KeyHandler::update`, `AppControl`, `EventQueue`, `library_scroll`,
`cards_that_fit` and `card_index`; nothing in `app/` calls them yet.
