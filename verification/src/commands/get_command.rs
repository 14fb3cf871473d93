//! The GET command: look a key up.

use vstd::prelude::*;
use vstd::string::StringExecFns;
use super::{wrong_args_message, CommandError};
use crate::data::{Data, DataModel};
use crate::nest::Nest;
use crate::text::usize_to_string;

verus! {

/// `GET key`: answer the stored value under `key`, or Null.
#[derive(Debug, Clone)]
pub struct GetCommand {
    key: String,
}

impl View for GetCommand {
    type V = Seq<char>;

    closed spec fn view(&self) -> Seq<char> {
        self.key@
    }
}

impl GetCommand {
    /// Build the command from its argument list: exactly one argument,
    /// the key.
    pub fn new(args: &[&str]) -> (r: Result<GetCommand, CommandError>)
        ensures
            match r {
                Ok(c) => args@.len() == 1 && c@ == args@[0]@,
                Err(e) => args@.len() != 1 && e@ == wrong_args_message(
                    "GET"@,
                    1,
                    args@.len() as int,
                ),
            },
    {
        if args.len() == 1 {
            Ok(GetCommand { key: args[0].to_owned() })
        } else {
            let msg = String::from_str("Cannot parse ").concat("GET").concat(
                " command arguments: Wrong number of arguments. Expected ",
            ).concat(usize_to_string(1).as_str()).concat(", got ").concat(
                usize_to_string(args.len()).as_str(),
            ).concat(".");
            proof {
                assert(msg@ =~= wrong_args_message("GET"@, 1, args@.len() as int));
            }
            Err(CommandError::from_string(msg))
        }
    }

    /// The key the command asks for.
    pub fn key(&self) -> (r: &String)
        ensures
            r@ == self@,
    {
        &self.key
    }

    /// The command line this command prints as.
    pub fn to_string(&self) -> (r: String)
        ensures
            r@ == "GET "@ + self@,
    {
        String::from_str("GET ").concat(self.key.as_str())
    }

    /// Run `GET`: the store is left as it is; the reply is the stored
    /// value as a bulk string, or Null when the key is absent.
    pub fn execute(&self, nest: &mut Nest) -> (r: Data)
        requires
            old(nest).wf(),
        ensures
            final(nest).wf(),
            final(nest)@ == old(nest)@,
            r@ == (if old(nest)@.contains_key(self@) {
                DataModel::BulkString(old(nest)@[self@].value)
            } else {
                DataModel::Null
            }),
    {
        match nest.get(self.key.as_str()) {
            Some(egg) => Data::BulkString(egg.value().clone()),
            None => Data::Null,
        }
    }
}

} // verus!
