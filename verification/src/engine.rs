//! The engine: the one owner of the store, executing commands one at
//! a time.
//!
//! Every mutation of the store happens inside [`Engine::process`], so
//! the order the requests are handed in is the total order of all
//! commands. The channels that feed requests in and carry replies out
//! live with the caller; the engine itself is the sequential step.

use vstd::prelude::*;
use crate::commands::{parse_command, run_command, CommandModel, parse_value};
use crate::data::{Data, DataModel};
use crate::egg::EggModel;
use crate::nest::Nest;

verus! {

/// What one request does to the store and what it answers: a command
/// that parses is run; one that does not leaves the store alone and
/// answers with the parse complaint as a wire error.
pub open spec fn engine_step(m: Map<Seq<char>, EggModel>, input: DataModel) -> (
    Map<Seq<char>, EggModel>,
    DataModel,
) {
    match parse_value(input) {
        Ok(c) => run_command(m, c),
        Err(msg) => (m, DataModel::Error(msg)),
    }
}

/// The engine owns the store and runs every command against it in the
/// order requests are handed to [`Engine::process`].
pub struct Engine {
    nest: Nest,
}

impl View for Engine {
    type V = Map<Seq<char>, EggModel>;

    closed spec fn view(&self) -> Map<Seq<char>, EggModel> {
        self.nest@
    }
}

impl Engine {
    /// Whether the engine's store is in shape.
    pub closed spec fn wf(&self) -> bool {
        self.nest.wf()
    }

    /// A fresh engine over an empty store.
    pub fn new() -> (r: Engine)
        ensures
            r.wf(),
            r@ == Map::<Seq<char>, EggModel>::empty(),
    {
        Engine { nest: Nest::new() }
    }

    /// Handle one request: parse it, run it, and give back the reply
    /// to send, exactly as [`engine_step`] says.
    pub fn process(&mut self, input: &Data) -> (r: Data)
        requires
            old(self).wf(),
        ensures
            final(self).wf(),
            final(self)@ == engine_step(old(self)@, input@).0,
            r@ == engine_step(old(self)@, input@).1,
    {
        match parse_command(input) {
            Ok(command) => command.execute(&mut self.nest),
            Err(err) => Data::Error(err.into_message()),
        }
    }
}

impl Default for Engine {
    /// A fresh engine over an empty store.
    fn default() -> (r: Self)
        ensures
            r.wf(),
            r@ == Map::<Seq<char>, EggModel>::empty(),
    {
        Engine::new()
    }
}

/// Storing a value and then asking for its key gives that value back:
/// the SET is acknowledged with OK, and the GET answers the stored
/// text as a bulk string.
pub proof fn lemma_store_then_get(m: Map<Seq<char>, EggModel>, k: Seq<char>, v: Seq<char>)
    ensures
        run_command(m, CommandModel::Store(k, v)).1 == DataModel::SimpleString("OK"@),
        run_command(run_command(m, CommandModel::Store(k, v)).0, CommandModel::Get(k)).1
            == DataModel::BulkString(v),
{
}

/// Asking for a key that was never stored answers Null, and leaves
/// the store as it is.
pub proof fn lemma_get_absent(m: Map<Seq<char>, EggModel>, k: Seq<char>)
    requires
        !m.contains_key(k),
    ensures
        run_command(m, CommandModel::Get(k)).1 == DataModel::Null,
        run_command(m, CommandModel::Get(k)).0 == m,
{
}

/// Dropping a key always answers OK, whether or not it was there, and
/// a following GET of the key answers Null.
pub proof fn lemma_rem_then_get(m: Map<Seq<char>, EggModel>, k: Seq<char>)
    ensures
        run_command(m, CommandModel::Rem(k)).1 == DataModel::SimpleString("OK"@),
        run_command(run_command(m, CommandModel::Rem(k)).0, CommandModel::Get(k)).1
            == DataModel::Null,
{
}

/// Two stores of one key, run one after the other in whichever order
/// the engine drained them from its queue: the store ends exactly as
/// if only the later one had run, and a GET answers the later value.
/// No update is lost and no value is torn.
pub proof fn lemma_later_store_wins(
    m: Map<Seq<char>, EggModel>,
    k: Seq<char>,
    first: Seq<char>,
    second: Seq<char>,
)
    ensures
        run_command(run_command(m, CommandModel::Store(k, first)).0, CommandModel::Store(k, second)).0
            =~= run_command(m, CommandModel::Store(k, second)).0,
        run_command(
            run_command(run_command(m, CommandModel::Store(k, first)).0, CommandModel::Store(k, second)).0,
            CommandModel::Get(k),
        ).1 == DataModel::BulkString(second),
{
}

} // verus!
