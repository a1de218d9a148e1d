//! Model-based testing of stateful systems.
//!
//! A test author describes a system twice: as a small reference model
//! ([`StateMachine`]) and as an adapter around the real thing
//! ([`SystemUnderTest`]). The library draws random command sequences that the
//! model considers legal, replays each against both, and, when the two
//! disagree, searches for a shorter sequence that still shows the
//! disagreement.

pub mod config;
pub mod element;
pub mod errors;
pub mod harness;
pub mod random;
pub mod sequence;
pub mod shrink;
pub mod strategy;
pub mod traits;
pub mod tree;

pub use config::Config;
pub use errors::Error;
pub use harness::{execute_plan, TestError};
pub use sequence::CommandSequence;
pub use strategy::{command_sequence, CommandSequenceStrategy};
pub use traits::{StateMachine, SystemUnderTest};
pub use tree::CommandSequenceValueTree;
