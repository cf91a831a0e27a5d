//! Stream utilities that the bottle codec is built from. None of them polls
//! anything itself: each takes what a poll of the source gave and decides
//! what follows, so that the same decisions serve any source.

pub mod buffered_byte_stream;
pub mod byte_frame;
pub mod helpers;
pub mod hex;
pub mod optional_future;
pub mod polled;
pub mod readable_byte_stream;
pub mod split_until;
pub mod stream_generator;

pub use self::buffered_byte_stream::BufferedByteStream;
pub use self::byte_frame::ByteFrame;
pub use self::helpers::{
    stream_of, stream_of_hex, stream_of_vec, stream_to_hex_vec, stream_to_string_vec, VecStream,
};
pub use self::hex::{FromHex, ToHex};
pub use self::optional_future::{OptionFuture, OptionToFuture};
pub use self::polled::{Immediate, Polled};
pub use self::readable_byte_stream::{ReadMode, ReadableByteStream, ReadableByteStreamFuture};
pub use self::split_until::SplitUntil;
pub use self::stream_generator::{generate_stream, StreamGenerator};
