//! Streaming decoder for tar archives.
//!
//! The archive arrives as byte chunks of arbitrary size. The decoders in
//! [`decode`] are pull-style state machines that own no byte source: a caller
//! polls a decoder for its next item and, whenever the decoder has to wait,
//! feeds it the next chunk. No decoder holds more of the archive than one
//! header block, one chunk, and the records that describe the next entry.
//!
//! Every decoder's `poll` has a contract that says, as a function of the
//! decoder's state, which state and which answer the poll comes to.
//!
//! [`decode`] holds the decoders in three layers: the framer, the coalescer
//! of metadata and the nested entry stream. Two more streams stand on the
//! framer alone: [`header`] hands out raw entries with their payload, and
//! [`archive`] hands out entries with their PAX records undecoded.
use vstd::prelude::*;

pub mod archive;
pub mod decode;
pub mod header;

mod error;

pub use self::decode::pax;
pub use self::error::Error;
pub use self::error::Fault;

verus! {

/// Options reserved for extracting entries to disk. The decoders never read them.
pub struct Config {
    unpack_xattrs: bool,
    preserve_permissions: bool,
    preserve_mtime: bool,
    ignore_zeros: bool,
}

} // verus!
