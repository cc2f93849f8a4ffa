//! Core of a Bitcoin Ordinals inscription engine: deterministic construction
//! of the commit output script, construction and fee-sizing of the reveal
//! transaction, Taproot script-path signing, and the persisted state that
//! carries a pending reveal across a process boundary.

pub mod bytes;
pub mod script;
pub mod tx;
pub mod envelope;
pub mod taproot;
pub mod runes;
pub mod plan;
pub mod flow;
pub mod output;
pub mod meta;
pub mod state;
pub mod decode;
pub mod laws;
