//! The decoders, from the leaves up.
//!
//! - [`time`] and [`pax`] read timestamps and PAX extended attributes.
//! - [`buffer`] and [`header`] hold what is taken on trust of the `bytes` and
//!   `tar` crates.
//! - [`raw`] frames the archive, [`flat`] folds the records that describe an
//!   entry into the entry, and [`full`] hands out each entry with its own
//!   payload.
//! - [`chunking`] and [`reading`] show that what comes out does not depend on
//!   the chunks in which the archive comes in.
pub mod buffer;
pub mod chunking;
pub mod flat;
pub mod full;
pub mod header;
pub mod pax;
pub mod raw;
pub mod reading;
pub mod time;
