//! Incremental decoding of the Arrow IPC streaming format.
//!
//! [`StreamDecoder`] takes a stream in pieces of any size, and [`BufferStreamReader`] takes one
//! that is in memory. Both find the messages, keep the schema and the dictionaries, and refuse
//! streams that break the rules of the format. What the metadata of a message says, and how
//! arrays are built out of a body, they leave to their caller: they ask with [`Work`], and take
//! the answer as [`Reply`].
//!
//! Bodies and metadata are slices of the input wherever they lie in one piece of it.
//!
//! [`model`] says what a decoder does with its input, [`run`] what a stream comes to as a whole,
//! and [`laws`], [`framing`], [`reading`] and [`effects`] what holds of that. [`effects`] says what
//! each kind of message does, in terms of its bytes alone.
use vstd::prelude::*;

pub mod buffers;
pub mod decoder;
pub mod effects;
pub mod error;
pub mod framing;
pub mod laws;
pub mod message;
pub mod model;
pub mod reader;
pub mod reading;
pub mod run;
pub mod work;

pub use crate::decoder::StreamDecoder;
pub use crate::error::{IpcError, StreamError};
pub use crate::message::{MessageBuffer, MessageHeader, MessageInfo};
pub use crate::reader::{BufferStreamOpening, BufferStreamReader, Opened, Progress, Resumed};
pub use crate::work::{ArrayOptions, Reply, Work};
