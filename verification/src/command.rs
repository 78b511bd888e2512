//! The eight primitive commands and the symbols that stand for them.

use vstd::prelude::*;

verus! {

/// Why a source text was refused.
#[derive(Debug, Clone, Copy, PartialEq, Eq, Structural)]
pub enum SyntaxError {
    /// The character is none of the eight symbols.
    NotACommand,
    /// A loop end stands where no loop is open.
    UnmatchedLoopEnd,
}

/// One primitive command.
#[derive(Debug, Clone, Copy, PartialEq, Eq, Structural)]
pub enum Command {
    /// `>`
    IncremenentPointer,
    /// `<`
    DecrementPointer,
    /// `+`
    IncrementValue,
    /// `-`
    DecrementValue,
    /// `.`
    Print,
    /// `,`
    Read,
    /// `[`
    Jump,
    /// `]`
    Target,
}

/// The command that a character stands for, if it stands for one.
pub open spec fn command_of(c: char) -> Option<Command> {
    if c == '>' {
        Some(Command::IncremenentPointer)
    } else if c == '<' {
        Some(Command::DecrementPointer)
    } else if c == '+' {
        Some(Command::IncrementValue)
    } else if c == '-' {
        Some(Command::DecrementValue)
    } else if c == '.' {
        Some(Command::Print)
    } else if c == ',' {
        Some(Command::Read)
    } else if c == '[' {
        Some(Command::Jump)
    } else if c == ']' {
        Some(Command::Target)
    } else {
        None
    }
}

/// The character that stands for a command.
pub open spec fn symbol_of(command: Command) -> char {
    match command {
        Command::IncremenentPointer => '>',
        Command::DecrementPointer => '<',
        Command::IncrementValue => '+',
        Command::DecrementValue => '-',
        Command::Print => '.',
        Command::Read => ',',
        Command::Jump => '[',
        Command::Target => ']',
    }
}

/// The commands that a text holds, in order; every other character is
/// passed over.
pub open spec fn commands_of(source: Seq<char>) -> Seq<Command>
    decreases source.len(),
{
    if source.len() == 0 {
        Seq::empty()
    } else {
        match command_of(source.last()) {
            Some(command) => commands_of(source.drop_last()).push(command),
            None => commands_of(source.drop_last()),
        }
    }
}

impl TryFrom<char> for Command {
    type Error = SyntaxError;

    /// The command that `c` stands for; `NotACommand` for every other
    /// character.
    fn try_from(c: char) -> (result: Result<Command, SyntaxError>) {
        Ok(
            match c {
                '>' => Command::IncremenentPointer,
                '<' => Command::DecrementPointer,
                '+' => Command::IncrementValue,
                '-' => Command::DecrementValue,
                '.' => Command::Print,
                ',' => Command::Read,
                '[' => Command::Jump,
                ']' => Command::Target,
                _ => return Err(SyntaxError::NotACommand),
            },
        )
    }
}

impl vstd::std_specs::convert::TryFromSpecImpl<char> for Command {
    open spec fn obeys_try_from_spec() -> bool {
        true
    }

    open spec fn try_from_spec(c: char) -> Result<Command, SyntaxError> {
        match command_of(c) {
            Some(command) => Ok(command),
            None => Err(SyntaxError::NotACommand),
        }
    }
}

impl From<Command> for char {
    /// The character that stands for `command`.
    fn from(command: Command) -> (symbol: char) {
        match command {
            Command::IncremenentPointer => '>',
            Command::DecrementPointer => '<',
            Command::IncrementValue => '+',
            Command::DecrementValue => '-',
            Command::Print => '.',
            Command::Read => ',',
            Command::Jump => '[',
            Command::Target => ']',
        }
    }
}

impl vstd::std_specs::convert::FromSpecImpl<Command> for char {
    open spec fn obeys_from_spec() -> bool {
        true
    }

    open spec fn from_spec(command: Command) -> char {
        symbol_of(command)
    }
}

impl Command {
    /// The command's symbol as a text of one character.
    pub fn to_string(&self) -> (text: String)
        ensures
            text@ == seq![symbol_of(*self)],
    {
        proof {
            reveal_strlit(">");
            reveal_strlit("<");
            reveal_strlit("+");
            reveal_strlit("-");
            reveal_strlit(".");
            reveal_strlit(",");
            reveal_strlit("[");
            reveal_strlit("]");
        }
        let text = match self {
            Command::IncremenentPointer => ">",
            Command::DecrementPointer => "<",
            Command::IncrementValue => "+",
            Command::DecrementValue => "-",
            Command::Print => ".",
            Command::Read => ",",
            Command::Jump => "[",
            Command::Target => "]",
        };
        text.to_owned()
    }
}

/// Every command is the command of its own symbol.
pub proof fn lemma_symbol_round_trip(command: Command)
    ensures
        command_of(symbol_of(command)) == Some(command),
{
}

/// A character that stands for a command is that command's symbol.
pub proof fn lemma_command_round_trip(c: char)
    ensures
        command_of(c) matches Some(command) ==> symbol_of(command) == c,
{
}

/// Reads the commands out of a source text, passing over every character
/// that is none of the eight symbols.
pub fn commands(source: &str) -> (found: Vec<Command>)
    ensures
        found@ == commands_of(source@),
{
    let mut found: Vec<Command> = Vec::new();
    let ghost text = source@;
    for c in it: source.chars()
        invariant
            it.seq() == text,
            found@ == commands_of(text.take(it.index())),
    {
        assert(text.take(it.index() + 1).drop_last() =~= text.take(it.index()));
        match Command::try_from(c) {
            Ok(command) => {
                found.push(command);
            },
            Err(_) => {},
        }
    }
    assert(text.take(text.len() as int) =~= text);
    found
}

} // verus!
