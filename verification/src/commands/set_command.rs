//! The SET command: store a value under a key.

use vstd::prelude::*;
use vstd::string::StringExecFns;
use super::{wrong_args_message, CommandError};
use crate::data::{Data, DataModel};
use crate::egg::{Egg, EggModel};
use crate::nest::Nest;
use crate::text::usize_to_string;

verus! {

/// `SET key value`: store `value` under `key`, replacing any prior
/// record there.
#[derive(Debug, Clone)]
pub struct SetCommand {
    key: String,
    value: String,
}

impl View for SetCommand {
    type V = (Seq<char>, Seq<char>);

    closed spec fn view(&self) -> (Seq<char>, Seq<char>) {
        (self.key@, self.value@)
    }
}

impl SetCommand {
    /// Build the command from its argument list: exactly two
    /// arguments, the key and the value.
    pub fn new(args: &[&str]) -> (r: Result<SetCommand, CommandError>)
        ensures
            match r {
                Ok(c) => args@.len() == 2 && c@.0 == args@[0]@ && c@.1 == args@[1]@,
                Err(e) => args@.len() != 2 && e@ == wrong_args_message(
                    "SET"@,
                    2,
                    args@.len() as int,
                ),
            },
    {
        if args.len() == 2 {
            Ok(SetCommand { key: args[0].to_owned(), value: args[1].to_owned() })
        } else {
            let msg = String::from_str("Cannot parse ").concat("SET").concat(
                " command arguments: Wrong number of arguments. Expected ",
            ).concat(usize_to_string(2).as_str()).concat(", got ").concat(
                usize_to_string(args.len()).as_str(),
            ).concat(".");
            proof {
                assert(msg@ =~= wrong_args_message("SET"@, 2, args@.len() as int));
            }
            Err(CommandError::from_string(msg))
        }
    }

    /// The key the command stores under.
    pub fn key(&self) -> (r: &String)
        ensures
            r@ == self@.0,
    {
        &self.key
    }

    /// The value the command stores.
    pub fn value(&self) -> (r: &String)
        ensures
            r@ == self@.1,
    {
        &self.value
    }

    /// The command line this command prints as.
    pub fn to_string(&self) -> (r: String)
        ensures
            r@ == "SET "@ + self@.0 + " "@ + self@.1,
    {
        String::from_str("SET ").concat(self.key.as_str()).concat(" ").concat(
            self.value.as_str(),
        )
    }

    /// Run `SET`: the store now maps the key to the new record, and
    /// the reply is always OK.
    pub fn execute(&self, nest: &mut Nest) -> (r: Data)
        requires
            old(nest).wf(),
        ensures
            final(nest).wf(),
            final(nest)@ == old(nest)@.insert(
                self@.0,
                EggModel { key: self@.0, value: self@.1 },
            ),
            r@ == DataModel::SimpleString("OK"@),
    {
        nest.set(Egg::new(self.key.as_str(), self.value.as_str()));
        Data::SimpleString(String::from_str("OK"))
    }
}

} // verus!
