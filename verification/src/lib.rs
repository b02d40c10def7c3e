//! Session core of a line-oriented room server: the protocol's requests and
//! messages, the state machine that holds users and rooms, and the decisions
//! of the dispatcher and of a connection's session.

pub mod canonicalise;
pub mod decimal;
pub mod dispatch;
pub mod ids;
pub mod invariants;
pub mod models;
pub mod request;
pub mod response;
pub mod server;
pub mod state;
pub mod wire;
