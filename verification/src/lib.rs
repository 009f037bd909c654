//! Building blocks for workflow agents: structured values and their wire
//! form, invocation contexts and results, and the protocol that multiplexes
//! an invocation's log lines and its final result onto one outbound stream.

pub mod context;
pub mod invocation;
pub mod laws;
pub mod output;
pub mod relay;
pub mod status;
pub mod value;
