use crate::stream_position::StreamPosition;
use vstd::prelude::*;

verus! {

/// One decode outcome: a Unicode character, temporary absence of data, or an
/// end-of-stream marker.
#[derive(Debug, Copy, Clone, PartialEq, Eq, Structural)]
pub enum Char {
    /// End of stream reached; once a reader returns `Eof`, it continues to do
    /// so.
    Eof,
    /// The source supplied no data right now, and the reader is configured
    /// not to treat that as end of stream.
    NoData,
    /// A character decoded from the stream.
    Char(char),
}

/// Relies on `std::io::Error` of std, declared opaque: values of it are only
/// carried through from the byte source to the caller, never inspected.
#[verifier::external_type_specification]
#[verifier::external_body]
pub struct ExIoError(std::io::Error);

/// An error from the reader: either an I/O error passed through from the
/// byte source, or a malformed UTF-8 encoding localized within the stream.
#[derive(Debug)]
pub enum Error {
    /// An error passed through unmodified from the underlying byte source.
    IoError(std::io::Error),
    /// A malformed UTF-8 encoding: the position within the stream at which it
    /// starts, and the number of bytes (1 to 3) forming the malformed unit.
    MalformedUtf8(StreamPosition, usize),
}

/// A result with an error type of [`Error`].
pub type Result<T> = core::result::Result<T, Error>;

impl Error {
    /// Builds the error result for a malformed UTF-8 encoding at `stream_pos`
    /// spanning `num_bytes` bytes.
    pub fn malformed_utf8<T>(stream_pos: StreamPosition, num_bytes: usize) -> (r: Result<T>)
        ensures
            r matches Err(e) && e == Error::MalformedUtf8(stream_pos, num_bytes),
    {
        Err(Error::MalformedUtf8(stream_pos, num_bytes))
    }
}

impl From<std::io::Error> for Error {
    /// Wraps a source I/O error.
    fn from(e: std::io::Error) -> (r: Self) {
        Error::IoError(e)
    }
}

impl vstd::std_specs::convert::FromSpecImpl<std::io::Error> for Error {
    open spec fn obeys_from_spec() -> bool {
        true
    }

    open spec fn from_spec(e: std::io::Error) -> Self {
        Error::IoError(e)
    }
}

} // verus!
