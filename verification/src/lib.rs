//! Incremental UTF-8 decoding of a byte stream.
//!
//! The [`Reader`] turns any byte source implementing [`ByteSource`] into a
//! stream of `char` values, decoding UTF-8 incrementally: it buffers a bounded
//! number of bytes, resumes cleanly when a multi-byte encoding is split across
//! two reads, and reports each malformed encoding with its exact byte span and
//! [`StreamPosition`] (byte offset, line, column).

mod reader;
mod source;
mod stream_position;
mod types;
pub mod utf8_scan;

pub use reader::lemma_stream_parts;
pub use reader::step_char;
pub use reader::step_eof;
pub use reader::step_io_error;
pub use reader::step_malformed;
pub use reader::step_no_data;
pub use reader::Reader;
pub use reader::BUFFER_SIZE;
pub use reader::BUFFER_SLACK;
pub use source::ByteSource;
pub use source::VecSource;
pub use stream_position::pos_after_bytes;
pub use stream_position::pos_after_char;
pub use stream_position::pos_can_advance;
pub use stream_position::StreamPosition;
pub use stream_position::StreamPositionView;
pub use types::Char;
pub use types::Error;
pub use types::Result;
