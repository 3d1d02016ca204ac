//! Control plane of a tape-to-digital video logging tool.
//!
//! The library holds the verified core: the HTTP-style protocol codec, the
//! three-way request router, and the edit-coordination logic that pairs
//! logged cut points into edits.  The surrounding process (socket handling,
//! the timecode-decoding backend and the on-disk edit-decision-list writer)
//! drives these functions from outside.

pub mod codec;
pub mod cut_log;
pub mod edl;
pub mod ltc_decode;
pub mod request;
pub mod server;
