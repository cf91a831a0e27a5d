//! Codec for the 4bottle container, a self-describing archive format. A
//! bottle is a typed header with a small metadata table, followed by an
//! ordered sequence of inner streams, each cut into frames that are
//! announced by their length; an inner stream may itself hold a bottle.
//!
//! The library has three layers.
//!
//! * The codecs on values: [`zint`] for the two variable-length integers,
//!   [`table`] and [`bottle_header`] for the metadata table, and the
//!   preamble of the header in [`header`].
//! * The stream utilities in [`stream_toolkit`]. Each of them is written as
//!   the decisions of a poll: it is handed what polling the source gave and
//!   says what follows. Nothing in the library waits, so the same decisions
//!   serve a source in memory and a source that is driven from outside.
//! * The codec on streams in memory: [`header`] and [`bottle`] read and
//!   write whole bottles on [`stream_toolkit::helpers::VecStream`].
//!
//! [`round_trip`] holds the laws that tie writing to reading. What the
//! library assumes of code it does not verify stands in [`chunk`], [`utf8`]
//! and in one function of [`text`].

pub mod bottle;
pub mod bottle_header;
pub mod chunk;
pub mod error;
pub mod header;
pub mod round_trip;
pub mod stream_toolkit;
pub mod table;
pub mod text;
pub mod utf8;
pub mod zint;
