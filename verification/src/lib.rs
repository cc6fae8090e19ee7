//! Incremental decoding of a simplified chunked transfer framing,
//! `<hex-size>\r\n<payload>\r\n ... 0\r\n\r\n`, from fragments cut at
//! arbitrary places.
//!
//! A [`ChunkedDecoder`] is fed the stream fragment by fragment and hands the
//! payload, run by run, to a [`PayloadSink`]; a [`ChunkedCollectingDecoder`]
//! keeps the payload in a string of its own. What either does is stated
//! against the state machine of [`model`]; [`framing`] describes the wire
//! format, and [`theorems`] proves that the decoder reads it back however
//! the stream is cut.

pub mod decoder;
pub mod error;
pub mod framing;
pub mod model;
pub mod sink;
pub mod theorems;

pub use decoder::{
    hex_value, ChunkedCollectingDecoder, ChunkedDecoder, CollectingDecoder, Decoder,
};
pub use error::DecodeError;
pub use sink::PayloadSink;
