//! Election record kept in a single byte buffer: instruction decoding and the
//! state transitions that create an election, register voters and count votes.

pub mod error;
pub mod instruction;
pub mod processor;
pub mod state;

pub use error::ElectionError;
pub use instruction::{CastVote, ElectionInstruction, RegisterVoter};
pub use processor::Processor;
pub use state::Election;
