//! Data-availability encoding core: padding, chunking, share assembly,
//! share verification decisions, reconstruction and a wire format for shares.

pub mod boundary;
pub mod chunker;
pub mod chunks;
pub mod codec;
pub mod encoder;
pub mod error;
pub mod last_error;
pub mod messages;
pub mod padding;
pub mod reconstruction;
pub mod round_trip;
pub mod share;
pub mod status;
pub mod verification;
