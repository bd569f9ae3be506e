//! Middle-end lowering for a smart-contract compiler.
//!
//! The crate lowers a typed, semantically checked contract representation
//! into a target-independent control-flow-graph form: variable tables with
//! phi-set tracking, basic blocks of tagged instructions, compact ("Scale"
//! style) ABI encoding, function-selector dispatch, try/catch lowering and
//! event-topic emission.

pub mod abi;
pub mod ast;
pub mod cfg;
pub mod dispatch;
pub mod encoding;
pub mod events;
pub mod lir;
pub mod try_catch;
pub mod unused_variable;
pub mod vartable;


pub use ast::Type;
