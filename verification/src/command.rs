//! The control commands: a category word, then a subcommand word, then the
//! subcommand's `key=value` arguments, all separated by spaces.

use vstd::prelude::*;

use crate::parser::{
    integer_text_value, lookup, spec_parse_arguments, usize_from_text, ArgumentParser, CommandError, ParseCommandError,
};
use crate::text::{chars_eq, chars_of, find_char, lemma_find_char_bounds, lemma_find_char_some, position_of, string_from_chars, trim};

verus! {

/// A command of the control interface.
#[derive(Debug, Clone, PartialEq, Eq, Structural)]
pub enum Command {
    Album(AlbumCommand),
}

/// The subcommands of the `album` category.
#[derive(Debug, Clone, PartialEq, Eq, Structural)]
pub enum AlbumCommand {
    List,
    ListTracks { id: usize },
}

/// `s` cut at its first space: the part before it and the part after it, or
/// all of `s` and nothing when it holds no space.
pub open spec fn split_at_space(s: Seq<char>) -> (Seq<char>, Seq<char>) {
    match find_char(s, ' ') {
        Some(i) => (s.subrange(0, i), s.subrange(i + 1, s.len() as int)),
        None => (s, Seq::empty()),
    }
}

/// The word that names the `album` category.
pub open spec fn album_word() -> Seq<char> {
    seq!['a', 'l', 'b', 'u', 'm']
}

/// The word that names [`AlbumCommand::List`].
pub open spec fn list_word() -> Seq<char> {
    seq!['l', 'i', 's', 't']
}

/// The word that names [`AlbumCommand::ListTracks`].
pub open spec fn list_tracks_word() -> Seq<char> {
    seq!['l', 'i', 's', 't', '-', 't', 'r', 'a', 'c', 'k', 's']
}

/// The argument name of the album id.
pub open spec fn id_word() -> Seq<char> {
    seq!['i', 'd']
}

/// The album subcommand that `s` spells: its first word picks the
/// subcommand, the rest are the subcommand's arguments.
pub open spec fn spec_parse_album(s: Seq<char>) -> Result<AlbumCommand, CommandError> {
    spec_parse_album_parts(split_at_space(s).0, split_at_space(s).1)
}

/// The command that `s` spells once surrounding white space is cut off: its
/// first word picks the category, the rest is the category's subcommand.
pub open spec fn spec_parse_command(s: Seq<char>) -> Result<Command, CommandError> {
    let (category, rest) = split_at_space(trim(s));
    if category.len() == 0 {
        Err(CommandError::EmptyString)
    } else if category == album_word() {
        match spec_parse_album(rest) {
            Ok(a) => Ok(Command::Album(a)),
            Err(e) => Err(e),
        }
    } else {
        Err(CommandError::UnknownCategory(category))
    }
}

/// Cuts `t` at its first space (see [`split_at_space`]).
fn split_chars(t: &[char]) -> (r: (Vec<char>, Vec<char>))
    ensures
        (r.0@, r.1@) == split_at_space(t@),
{
    match position_of(t, ' ') {
        Some(i) => {
            proof {
                lemma_find_char_bounds(t@, ' ');
            }
            let n = t.len();
            assert(i < n);
            let after: usize = i + 1;
            (vstd::slice::slice_to_vec(&t[0..i]), vstd::slice::slice_to_vec(&t[after..n]))
        },
        None => {
            assert(t@.subrange(0, t@.len() as int) =~= t@);
            (vstd::slice::slice_to_vec(t), Vec::new())
        },
    }
}

/// Reads the arguments of a subcommand.
fn parse_album_chars(sub: &[char], rest: &str) -> (r: Result<AlbumCommand, ParseCommandError>)
    ensures
        match r {
            Ok(a) => spec_parse_album_parts(sub@, rest@) == Ok::<AlbumCommand, CommandError>(a),
            Err(e) => spec_parse_album_parts(sub@, rest@) == Err::<AlbumCommand, CommandError>(e@),
        },
{
    if sub.len() == 0 {
        Err(ParseCommandError::NoSubcommand)
    } else if chars_eq(sub, &['l', 'i', 's', 't']) {
        match ArgumentParser::new().required(&[]).parse(rest) {
            Err(e) => Err(e),
            Ok(_) => Ok(AlbumCommand::List),
        }
    } else if chars_eq(sub, &['l', 'i', 's', 't', '-', 't', 'r', 'a', 'c', 'k', 's']) {
        let required: &'static [&'static str] = &["id"];
        proof {
            reveal_strlit("id");
            assert(required@.len() == 1);
            assert(required@[0] == "id");
            assert(required@[0]@ == id_word());
            assert(crate::parser::names_view(required@) =~= seq![id_word()]);
        }
        match ArgumentParser::new().required(required).parse(rest) {
            Err(e) => Err(e),
            Ok(args) => match args.get::<usize>("id") {
                Ok(id) => Ok(AlbumCommand::ListTracks { id }),
                Err(e) => Err(e),
            },
        }
    } else {
        Err(ParseCommandError::UnknownSubcommand(string_from_chars(sub)))
    }
}

/// The album subcommand named `sub`, with the arguments `rest`.
pub open spec fn spec_parse_album_parts(sub: Seq<char>, rest: Seq<char>) -> Result<AlbumCommand, CommandError> {
    if sub.len() == 0 {
        Err(CommandError::NoSubcommand)
    } else if sub == list_word() {
        match spec_parse_arguments(Seq::empty(), Seq::empty(), rest) {
            Err(e) => Err(e),
            Ok(_) => Ok(AlbumCommand::List),
        }
    } else if sub == list_tracks_word() {
        match spec_parse_arguments(seq![id_word()], Seq::empty(), rest) {
            Err(e) => Err(e),
            Ok(ps) => match lookup(ps, id_word()) {
                None => Err(CommandError::MissingArgument(id_word())),
                Some(v) => match usize_from_text(v) {
                    Some(id) => Ok(AlbumCommand::ListTracks { id }),
                    None => Err(CommandError::InvalidArgument(id_word())),
                },
            },
        }
    } else {
        Err(CommandError::UnknownSubcommand(sub))
    }
}

impl AlbumCommand {
    /// Reads an album subcommand (see [`spec_parse_album`]), such as `list`
    /// or `list-tracks id=5`.
    pub fn from_str(string: &str) -> (r: Result<AlbumCommand, ParseCommandError>)
        ensures
            match r {
                Ok(a) => spec_parse_album(string@) == Ok::<AlbumCommand, CommandError>(a),
                Err(e) => spec_parse_album(string@) == Err::<AlbumCommand, CommandError>(e@),
            },
    {
        let t = chars_of(string);
        let (sub, rest) = split_chars(t.as_slice());
        let rest_string = string_from_chars(rest.as_slice());
        parse_album_chars(sub.as_slice(), rest_string.as_str())
    }
}

impl Command {
    /// Reads a command (see [`spec_parse_command`]), such as `album list`.
    pub fn from_str(string: &str) -> (r: Result<Command, ParseCommandError>)
        ensures
            match r {
                Ok(c) => spec_parse_command(string@) == Ok::<Command, CommandError>(c),
                Err(e) => spec_parse_command(string@) == Err::<Command, CommandError>(e@),
            },
    {
        let all = chars_of(string);
        let t = crate::parser::trim_chars(all.as_slice());
        let (category, rest) = split_chars(t.as_slice());
        if category.len() == 0 {
            Err(ParseCommandError::EmptyString)
        } else if chars_eq(category.as_slice(), &['a', 'l', 'b', 'u', 'm']) {
            let rest_string = string_from_chars(rest.as_slice());
            match AlbumCommand::from_str(rest_string.as_str()) {
                Ok(a) => Ok(Command::Album(a)),
                Err(e) => Err(e),
            }
        } else {
            Err(ParseCommandError::UnknownCategory(string_from_chars(category.as_slice())))
        }
    }
}

impl std::str::FromStr for AlbumCommand {
    type Err = ParseCommandError;

    fn from_str(string: &str) -> (r: Result<AlbumCommand, ParseCommandError>)
        ensures
            match r {
                Ok(a) => spec_parse_album(string@) == Ok::<AlbumCommand, CommandError>(a),
                Err(e) => spec_parse_album(string@) == Err::<AlbumCommand, CommandError>(e@),
            },
    {
        AlbumCommand::from_str(string)
    }
}

impl std::str::FromStr for Command {
    type Err = ParseCommandError;

    fn from_str(string: &str) -> (r: Result<Command, ParseCommandError>)
        ensures
            match r {
                Ok(c) => spec_parse_command(string@) == Ok::<Command, CommandError>(c),
                Err(e) => spec_parse_command(string@) == Err::<Command, CommandError>(e@),
            },
    {
        Command::from_str(string)
    }
}


/// `list-tracks` followed by a space and arguments that hold the required
/// `id` and nothing else is the subcommand that lists the tracks of the
/// album whose id the text of `id` denotes, whatever that number is.
pub proof fn lemma_list_tracks_reads_id(rest: Seq<char>, v: Seq<char>, n: usize)
    requires
        spec_parse_arguments(seq![seq!['i', 'd']], Seq::empty(), rest) is Ok,
        lookup(spec_parse_arguments(seq![seq!['i', 'd']], Seq::empty(), rest)->Ok_0, seq!['i', 'd'])
            == Some(v),
        integer_text_value(v, false, 0, usize::MAX as int) == Some(n as int),
    ensures
        spec_parse_album(seq!['l', 'i', 's', 't', '-', 't', 'r', 'a', 'c', 'k', 's', ' '] + rest)
            == Ok::<AlbumCommand, CommandError>(AlbumCommand::ListTracks { id: n }),
{
    let s = seq!['l', 'i', 's', 't', '-', 't', 'r', 'a', 'c', 'k', 's', ' '] + rest;
    assert(s[11] == ' ');
    assert forall|j: int| 0 <= j < 11 implies s[j] != ' ' by {}
    lemma_find_char_some(s, ' ', 11);
    assert(s.subrange(0, 11) =~= list_tracks_word());
    assert(s.subrange(12, s.len() as int) =~= rest);
    assert(seq![seq!['i', 'd']] =~= seq![id_word()]);
}

/// `list` followed by a space and text that holds no argument is the
/// subcommand that lists the albums.
pub proof fn lemma_list_reads(rest: Seq<char>)
    requires
        spec_parse_arguments(Seq::empty(), Seq::empty(), rest) is Ok,
    ensures
        spec_parse_album(seq!['l', 'i', 's', 't', ' '] + rest) == Ok::<AlbumCommand, CommandError>(
            AlbumCommand::List,
        ),
{
    let s = seq!['l', 'i', 's', 't', ' '] + rest;
    assert(s[4] == ' ');
    assert forall|j: int| 0 <= j < 4 implies s[j] != ' ' by {}
    lemma_find_char_some(s, ' ', 4);
    assert(s.subrange(0, 4) =~= list_word());
    assert(s.subrange(5, s.len() as int) =~= rest);
}

} // verus!
