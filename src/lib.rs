//! Consensus core of a client-side-validated contract protocol: operation
//! identifiers, blinded seals and state, and the transaction-output graph.

pub mod encoding;
pub mod ids;
pub mod seals;
pub mod state;
pub mod operations;
