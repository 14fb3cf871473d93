//! The REM command: drop a key.

use vstd::prelude::*;
use vstd::string::StringExecFns;
use super::{wrong_args_message, CommandError};
use crate::data::{Data, DataModel};
use crate::nest::Nest;
use crate::text::usize_to_string;

verus! {

/// `REM key`: drop the record under `key`; quietly done even when the
/// key is absent.
#[derive(Debug, Clone)]
pub struct RemCommand {
    key: String,
}

impl View for RemCommand {
    type V = Seq<char>;

    closed spec fn view(&self) -> Seq<char> {
        self.key@
    }
}

impl RemCommand {
    /// Build the command from its argument list: exactly one argument,
    /// the key.
    pub fn new(args: &[&str]) -> (r: Result<RemCommand, CommandError>)
        ensures
            match r {
                Ok(c) => args@.len() == 1 && c@ == args@[0]@,
                Err(e) => args@.len() != 1 && e@ == wrong_args_message(
                    "REM"@,
                    1,
                    args@.len() as int,
                ),
            },
    {
        if args.len() == 1 {
            Ok(RemCommand { key: args[0].to_owned() })
        } else {
            let msg = String::from_str("Cannot parse ").concat("REM").concat(
                " command arguments: Wrong number of arguments. Expected ",
            ).concat(usize_to_string(1).as_str()).concat(", got ").concat(
                usize_to_string(args.len()).as_str(),
            ).concat(".");
            proof {
                assert(msg@ =~= wrong_args_message("REM"@, 1, args@.len() as int));
            }
            Err(CommandError::from_string(msg))
        }
    }

    /// The key the command drops.
    pub fn key(&self) -> (r: &String)
        ensures
            r@ == self@,
    {
        &self.key
    }

    /// The command line this command prints as.
    pub fn to_string(&self) -> (r: String)
        ensures
            r@ == "REM "@ + self@,
    {
        String::from_str("REM ").concat(self.key.as_str())
    }

    /// Run `REM`: the store no longer maps the key, and the reply is
    /// always OK, whether or not the key was there.
    pub fn execute(&self, nest: &mut Nest) -> (r: Data)
        requires
            old(nest).wf(),
        ensures
            final(nest).wf(),
            final(nest)@ == old(nest)@.remove(self@),
            r@ == DataModel::SimpleString("OK"@),
    {
        nest.rem(self.key.as_str());
        Data::SimpleString(String::from_str("OK"))
    }
}

} // verus!
