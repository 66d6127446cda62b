//! A relay for the i3bar streaming JSON protocol: it rewrites the protocol
//! header of a status-line generator to advertise click-event support and
//! forwards every later line verbatim, each record terminated by exactly one
//! newline.

pub mod align;
pub mod block;
pub mod digits;
pub mod errors;
pub mod header;
pub mod relay;
pub mod text;

pub use align::Alignment;
pub use block::Block;
pub use errors::DecodeError;
pub use header::Header;
pub use relay::R3Status;
pub use relay::RelayState;
