//! A verified implementation of the osu! legacy IPC difficulty-calculation
//! bridge: the length-prefixed wire framing, the JSON request/response
//! envelope codec, the ruleset dispatch rules, and the per-connection
//! response policy.

pub mod connection;
pub mod dispatch;
pub mod frame;
pub mod message;
pub mod update;

pub use connection::ConnectionError;
pub use dispatch::CalculationError;
pub use dispatch::Ruleset;
pub use frame::ByteOrder;
pub use frame::FramingError;
pub use message::DecodeError;
