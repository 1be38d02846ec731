//! Binary protocol codec for a rotating LIDAR sensor on a serial link.
//!
//! The [`packet`] module holds the request side of the protocol: the command
//! catalog, the XOR checksum, and the build and parse operations for request
//! packets. The [`response`] module holds the structural types of the
//! response-side descriptor envelope.

pub mod packet;
pub mod response;
