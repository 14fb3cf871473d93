//! Sparrow: an in-memory key-value store spoken to over the RESP wire
//! format.
//!
//! The library holds the verified core: the wire codec ([`encode`],
//! [`decode`]), the record store ([`Nest`]), the command layer
//! ([`parse_command`], [`Command`]), and the engine that runs every
//! command in sequence ([`Engine`]). A front end brings the sockets
//! and channels and hands the engine one decoded value at a time.

mod cli;
mod commands;
mod constants;
mod data;
mod decimal;
mod deserialize;
mod egg;
mod engine;
mod errors;
mod message;
mod nest;
mod roundtrip;
mod serialize;
mod text;
mod token;

pub use cli::Cli;
pub use cli::CliFlag;
pub use cli::CliOpt;
pub use commands::parse_command;
pub use commands::parse_string_command;
pub use commands::parse_text;
pub use commands::parse_value;
pub use commands::run_command;
pub use commands::Command;
pub use commands::CommandError;
pub use commands::CommandModel;
pub use commands::GetCommand;
pub use commands::RemCommand;
pub use commands::SetCommand;
pub use data::Data;
pub use data::DataModel;
pub use deserialize::decode;
pub use deserialize::decode_frame;
pub use deserialize::decode_string;
pub use deserialize::DecodeError;
pub use deserialize::DecodeErrorKind;
pub use egg::Egg;
pub use egg::EggModel;
pub use engine::engine_step;
pub use engine::lemma_get_absent;
pub use engine::lemma_later_store_wins;
pub use engine::lemma_rem_then_get;
pub use engine::lemma_store_then_get;
pub use engine::Engine;
pub use errors::EggNotInNestError;
pub use errors::PoisonedInputQueueError;
pub use errors::PoisonedOutputQueueError;
pub use message::Message;
pub use nest::Nest;
pub use roundtrip::lemma_decode_of_encode;
pub use roundtrip::wire_safe;
pub use serialize::encode;
pub use serialize::encode_string;
pub use serialize::wire_bytes;
pub use token::next_token;
pub use token::Token;
