//! Error values kept by the library for its callers.

use vstd::prelude::*;
use vstd::string::StringExecFns;

verus! {

/// The engine's input queue was poisoned and can no longer be read.
#[derive(Debug, PartialEq, Eq)]
pub struct PoisonedInputQueueError {
    message: String,
}

impl View for PoisonedInputQueueError {
    type V = Seq<char>;

    closed spec fn view(&self) -> Seq<char> {
        self.message@
    }
}

impl PoisonedInputQueueError {
    /// Wrap the queue's complaint.
    pub fn new(message: &str) -> (r: PoisonedInputQueueError)
        ensures
            r@ == message@,
    {
        PoisonedInputQueueError { message: message.to_owned() }
    }

    /// The queue's complaint.
    pub fn message(&self) -> (r: &String)
        ensures
            r@ == self@,
    {
        &self.message
    }

    /// The error as the text it is reported with.
    pub fn to_string(&self) -> (r: String)
        ensures
            r@ == "Engine input queue was poisoned: "@ + self@,
    {
        String::from_str("Engine input queue was poisoned: ").concat(self.message.as_str())
    }
}

/// The engine's output queue was poisoned and can no longer be written.
#[derive(Debug, PartialEq, Eq)]
pub struct PoisonedOutputQueueError {
    message: String,
}

impl View for PoisonedOutputQueueError {
    type V = Seq<char>;

    closed spec fn view(&self) -> Seq<char> {
        self.message@
    }
}

impl PoisonedOutputQueueError {
    /// Wrap the queue's complaint.
    pub fn new(message: &str) -> (r: PoisonedOutputQueueError)
        ensures
            r@ == message@,
    {
        PoisonedOutputQueueError { message: message.to_owned() }
    }

    /// The queue's complaint.
    pub fn message(&self) -> (r: &String)
        ensures
            r@ == self@,
    {
        &self.message
    }

    /// The error as the text it is reported with.
    pub fn to_string(&self) -> (r: String)
        ensures
            r@ == "Engine output queue was poisoned: "@ + self@,
    {
        String::from_str("Engine output queue was poisoned: ").concat(self.message.as_str())
    }
}

/// A lookup asked for a key that no record in the nest carries.
#[derive(Debug, PartialEq, Eq)]
pub struct EggNotInNestError {
    key: String,
}

impl View for EggNotInNestError {
    type V = Seq<char>;

    closed spec fn view(&self) -> Seq<char> {
        self.key@
    }
}

impl EggNotInNestError {
    /// Note the key that was missing.
    pub fn new(key: &str) -> (r: EggNotInNestError)
        ensures
            r@ == key@,
    {
        EggNotInNestError { key: key.to_owned() }
    }

    /// The key that was missing.
    pub fn key(&self) -> (r: &String)
        ensures
            r@ == self@,
    {
        &self.key
    }

    /// The error as the text it is reported with.
    pub fn to_string(&self) -> (r: String)
        ensures
            r@ == "No egg with key \""@ + self@ + "\" was found in the nest"@,
    {
        let r = String::from_str("No egg with key \"").concat(self.key.as_str()).concat(
            "\" was found in the nest",
        );
        proof {
            assert(r@ =~= "No egg with key \""@ + self@ + "\" was found in the nest"@);
        }
        r
    }
}

} // verus!
