//! The command-processing core of a small key-value cache that speaks a
//! line-oriented text protocol: a store of entries, an abstract byte
//! transport, and the state machine that parses requests and encodes replies
//! one chunk at a time.

pub mod bounded;
pub mod handler;
pub mod laws;
pub mod model;
pub mod state;
pub mod store;
pub mod transport;
pub mod wire;

pub use handler::CommandHandler;
pub use model::{CommandWithKey, Error};
pub use store::{Entry, Store};
pub use transport::{MockSocket, Producer, Socket, Visitor, MOCK_WINDOW};
