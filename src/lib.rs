//! Length-prefixed packet framing over a byte stream.
//!
//! The framing state machine in [`transport`] turns arbitrarily fragmented
//! reads into whole packets and builds the frames written back to a stream.
//! Every item here is verified; the stream I/O and the payload codec live in
//! the application layer around this library.

pub mod settings;
pub mod packet;
pub mod reassembly;
pub mod size;
pub mod transport;

pub use crate::settings::{ByteOrder, Settings};
pub use crate::transport::{FrameError, ReadOutcome, Simple};
pub use crate::transport::Simple as AsyncSimple;
