use zankyou::command::{AlbumCommand, Command};
use zankyou::parser::ParseCommandError;

#[test]
fn it_works() {
    let command = "album list".parse::<Command>().unwrap();
    assert_eq!(command, Command::Album(AlbumCommand::List));

    let command = "album list-tracks id=5".parse::<Command>().unwrap();
    assert_eq!(command, Command::Album(AlbumCommand::ListTracks { id: 5 }));
}

#[test]
fn command_trims_surrounding_white_space() {
    assert_eq!(
        Command::from_str("  album list-tracks id=12 \n"),
        Ok(Command::Album(AlbumCommand::ListTracks { id: 12 }))
    );
}

#[test]
fn command_empty_string() {
    assert_eq!(Command::from_str(""), Err(ParseCommandError::EmptyString));
    assert_eq!(Command::from_str(" \t "), Err(ParseCommandError::EmptyString));
}

#[test]
fn command_unknown_category() {
    assert_eq!(
        Command::from_str("artist list"),
        Err(ParseCommandError::UnknownCategory("artist".to_string()))
    );
}

#[test]
fn command_without_subcommand() {
    assert_eq!(Command::from_str("album"), Err(ParseCommandError::NoSubcommand));
    assert_eq!(Command::from_str("album  list"), Err(ParseCommandError::NoSubcommand));
}

#[test]
fn command_unknown_subcommand() {
    assert_eq!(
        Command::from_str("album play"),
        Err(ParseCommandError::UnknownSubcommand("play".to_string()))
    );
}

#[test]
fn command_argument_errors() {
    assert_eq!(
        Command::from_str("album list-tracks"),
        Err(ParseCommandError::MissingArgument("id".to_string()))
    );
    assert_eq!(
        Command::from_str("album list-tracks id=five"),
        Err(ParseCommandError::InvalidArgument("id".to_string()))
    );
    assert_eq!(
        Command::from_str("album list id=5"),
        Err(ParseCommandError::UnexpectedArgument("id".to_string()))
    );
    assert_eq!(
        Command::from_str("album list-tracks id=1 id=2"),
        Err(ParseCommandError::DuplicateArgument("id".to_string()))
    );
    assert_eq!(
        Command::from_str("album list-tracks id"),
        Err(ParseCommandError::InvalidArgument("id".to_string()))
    );
}

#[test]
fn album_command_from_str() {
    assert_eq!(AlbumCommand::from_str("list"), Ok(AlbumCommand::List));
    assert_eq!(
        "list-tracks   id=+7 ".parse::<AlbumCommand>(),
        Ok(AlbumCommand::ListTracks { id: 7 })
    );
    assert_eq!(AlbumCommand::from_str(""), Err(ParseCommandError::NoSubcommand));
}
