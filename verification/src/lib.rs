//! Streaming decoder for a length-prefixed, text-delimited wire protocol —
//! each request frame is an array marker, a decimal element count, and that
//! many length-prefixed bulk strings — together with an encoder for minimal
//! status and integer replies.
//!
//! The decoder works incrementally against a growable byte buffer that may
//! hold a partial frame, exactly one frame, or several pipelined frames.

pub mod bytebuf;
pub mod decimal;
pub mod laws;
pub mod request;
pub mod response;
pub mod wire;
