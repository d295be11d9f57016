//! A verified client library for the WaterFurnace Symphony service: the
//! protocol messages, the bookkeeping of commands in flight, the session
//! states, and the decisions of the client and of its HTTP gateway.

pub mod client;
pub mod external;
pub mod gateway;
pub mod mock;
pub mod protocol;
pub mod session;
pub mod text;
pub mod transactions;

pub use client::{ClientError, Result};
pub use protocol::{Command, LoginResponse, ReadResponse, Response};
pub use session::state;
pub use session::Result as SessionResult;
pub use session::SessionError;
