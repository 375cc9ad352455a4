//! LongFi monolithic datagram codec.
//!
//! A [`Datagram`] and its payload are turned into one over-the-air frame by
//! [`Datagram::encode`] and recovered from one by [`Datagram::decode`]. The
//! byte layout of a frame is given by [`datagram::frame`].

pub mod cursor;
pub mod datagram;
pub mod error;
pub mod flags;
pub mod payload;

pub use datagram::{Datagram, FrameKind};
pub use error::{LfcError, LfcRes};
pub use flags::Flags;
pub use payload::Payload;
