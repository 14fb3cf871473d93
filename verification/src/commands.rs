//! The command layer: a decoded value becomes one of a closed set of
//! operations, and each operation says how it reads or changes the
//! store.

mod get_command;
mod rem_command;
mod set_command;

pub use get_command::GetCommand;
pub use rem_command::RemCommand;
pub use set_command::SetCommand;

use vstd::prelude::*;
use vstd::string::StringExecFns;
use crate::data::{Data, DataModel};
use crate::egg::EggModel;
use crate::nest::Nest;
use crate::text::{dec_chars, split_at_spaces, split_spaces, strings_view};

verus! {

/// The operations the engine understands.
pub enum CommandModel {
    Get(Seq<char>),
    Store(Seq<char>, Seq<char>),
    Rem(Seq<char>),
}

/// Why a value failed to parse as a command. Its view is the message
/// the peer is told.
#[derive(Debug)]
pub struct CommandError {
    message: String,
}

impl View for CommandError {
    type V = Seq<char>;

    closed spec fn view(&self) -> Seq<char> {
        self.message@
    }
}

impl CommandError {
    /// Wrap a ready-made message.
    pub fn from_string(message: String) -> (r: CommandError)
        ensures
            r@ == message@,
    {
        CommandError { message }
    }

    /// The message the peer is told.
    pub fn message(&self) -> (r: &String)
        ensures
            r@ == self@,
    {
        &self.message
    }

    /// Give up the error for its message.
    pub fn into_message(self) -> (r: String)
        ensures
            r@ == self@,
    {
        self.message
    }
}

/// The complaint for a verb given the wrong number of arguments.
pub open spec fn wrong_args_message(verb: Seq<char>, expected: int, got: int) -> Seq<char> {
    "Cannot parse "@ + verb + " command arguments: Wrong number of arguments. Expected "@
        + dec_chars(expected) + ", got "@ + dec_chars(got) + "."@
}

/// The complaint for an unknown verb.
pub open spec fn unknown_command_message(verb: Seq<char>) -> Seq<char> {
    "Command not found: "@ + verb
}

/// The complaint for input that is not a bulk string.
pub open spec fn not_bulk_string_message() -> Seq<char> {
    "Cannot parse command: data is not a bulk string"@
}

/// How a command line reads: split on spaces, the first piece picks
/// the verb, and the verb fixes how many arguments must follow.
pub open spec fn parse_text(text: Seq<char>) -> Result<CommandModel, Seq<char>> {
    let toks = split_at_spaces(text);
    let verb = toks[0];
    let nargs = toks.len() - 1;
    if verb == "GET"@ {
        if nargs == 1 {
            Ok(CommandModel::Get(toks[1]))
        } else {
            Err(wrong_args_message("GET"@, 1, nargs))
        }
    } else if verb == "SET"@ {
        if nargs == 2 {
            Ok(CommandModel::Store(toks[1], toks[2]))
        } else {
            Err(wrong_args_message("SET"@, 2, nargs))
        }
    } else if verb == "REM"@ {
        if nargs == 1 {
            Ok(CommandModel::Rem(toks[1]))
        } else {
            Err(wrong_args_message("REM"@, 1, nargs))
        }
    } else {
        Err(unknown_command_message(verb))
    }
}

/// How a decoded value reads as a command: only a bulk string counts.
pub open spec fn parse_value(v: DataModel) -> Result<CommandModel, Seq<char>> {
    match v {
        DataModel::BulkString(text) => parse_text(text),
        _ => Err(not_bulk_string_message()),
    }
}

/// What a command does to the store, and what it answers.
pub open spec fn run_command(m: Map<Seq<char>, EggModel>, c: CommandModel) -> (
    Map<Seq<char>, EggModel>,
    DataModel,
) {
    match c {
        CommandModel::Get(k) => (
            m,
            if m.contains_key(k) {
                DataModel::BulkString(m[k].value)
            } else {
                DataModel::Null
            },
        ),
        CommandModel::Store(k, v) => (
            m.insert(k, EggModel { key: k, value: v }),
            DataModel::SimpleString("OK"@),
        ),
        CommandModel::Rem(k) => (m.remove(k), DataModel::SimpleString("OK"@)),
    }
}

/// One of the engine's operations, ready to run.
#[derive(Debug, Clone)]
pub enum Command {
    Get(GetCommand),
    Store(SetCommand),
    Rem(RemCommand),
}

impl View for Command {
    type V = CommandModel;

    open spec fn view(&self) -> CommandModel {
        match self {
            Command::Get(c) => CommandModel::Get(c@),
            Command::Store(c) => CommandModel::Store(c@.0, c@.1),
            Command::Rem(c) => CommandModel::Rem(c@),
        }
    }
}

impl Command {
    /// The command line this command prints as.
    pub fn to_string(&self) -> (r: String)
        ensures
            r@ == (match self@ {
                CommandModel::Get(k) => "GET "@ + k,
                CommandModel::Store(k, v) => "SET "@ + k + " "@ + v,
                CommandModel::Rem(k) => "REM "@ + k,
            }),
    {
        match self {
            Command::Get(c) => c.to_string(),
            Command::Store(c) => c.to_string(),
            Command::Rem(c) => c.to_string(),
        }
    }

    /// Run the operation against the store and give the reply to send.
    pub fn execute(&self, nest: &mut Nest) -> (r: Data)
        requires
            old(nest).wf(),
        ensures
            final(nest).wf(),
            final(nest)@ == run_command(old(nest)@, self@).0,
            r@ == run_command(old(nest)@, self@).1,
    {
        match self {
            Command::Get(c) => c.execute(nest),
            Command::Store(c) => c.execute(nest),
            Command::Rem(c) => c.execute(nest),
        }
    }
}

/// Parse a decoded value into a command, exactly as [`parse_value`]
/// reads it.
pub fn parse_command(input: &Data) -> (r: Result<Command, CommandError>)
    ensures
        match r {
            Ok(c) => parse_value(input@) == Ok::<CommandModel, Seq<char>>(c@),
            Err(e) => parse_value(input@) == Err::<CommandModel, Seq<char>>(e@),
        },
{
    match input {
        Data::BulkString(text) => parse_string_command(text.as_str()),
        _ => Err(
            CommandError::from_string(
                String::from_str("Cannot parse command: data is not a bulk string"),
            ),
        ),
    }
}

/// Parse a command line, exactly as [`parse_text`] reads it.
pub fn parse_string_command(input: &str) -> (r: Result<Command, CommandError>)
    ensures
        match r {
            Ok(c) => parse_text(input@) == Ok::<CommandModel, Seq<char>>(c@),
            Err(e) => parse_text(input@) == Err::<CommandModel, Seq<char>>(e@),
        },
{
    broadcast use crate::text::lemma_strings_view_len, crate::text::lemma_strings_view_index;

    let tokens = split_spaces(input);
    let ghost toks = split_at_spaces(input@);
    let n = tokens.len();
    let mut args: Vec<&str> = Vec::new();
    let mut i: usize = 1;
    while i < n
        invariant
            1 <= i <= n,
            n == tokens@.len(),
            strings_view(tokens@) == toks,
            args@.len() == i - 1,
            forall|x: int| 0 <= x < i - 1 ==> args@[x]@ == toks[x + 1],
        decreases n - i,
    {
        proof {
            broadcast use crate::text::lemma_strings_view_len, crate::text::lemma_strings_view_index;
        }
        args.push(tokens[i].as_str());
        i = i + 1;
    }
    proof {
        assert(args@.len() == toks.len() - 1);
        assert(tokens@[0]@ == toks[0]);
    }
    let verb = &tokens[0];
    if verb.eq(&String::from_str("GET")) {
        match GetCommand::new(args.as_slice()) {
            Ok(c) => Ok(Command::Get(c)),
            Err(e) => Err(e),
        }
    } else if verb.eq(&String::from_str("SET")) {
        match SetCommand::new(args.as_slice()) {
            Ok(c) => Ok(Command::Store(c)),
            Err(e) => Err(e),
        }
    } else if verb.eq(&String::from_str("REM")) {
        match RemCommand::new(args.as_slice()) {
            Ok(c) => Ok(Command::Rem(c)),
            Err(e) => Err(e),
        }
    } else {
        Err(
            CommandError::from_string(
                String::from_str("Command not found: ").concat(verb.as_str()),
            ),
        )
    }
}

} // verus!
