use vstd::prelude::*;

verus! {

/// Mathematical image of a [`StreamPosition`]: byte offset, 1-based line and
/// 1-based column as unbounded integers.
pub struct StreamPositionView {
    pub byte: int,
    pub line: int,
    pub col: int,
}

/// Position after consuming `n` bytes that carry no character semantics
/// (a malformed span, or bytes discarded undecoded): only the byte offset
/// moves; line and column are untouched.
pub open spec fn pos_after_bytes(p: StreamPositionView, n: int) -> StreamPositionView {
    StreamPositionView { byte: p.byte + n, line: p.line, col: p.col }
}

/// Position after consuming one character `ch` whose encoding is `n` bytes
/// long: a newline starts the next line at column 1, any other character
/// advances the column by one; the byte offset always moves by `n`.
pub open spec fn pos_after_char(p: StreamPositionView, n: int, ch: char) -> StreamPositionView {
    if ch == '\n' {
        StreamPositionView { byte: p.byte + n, line: p.line + 1, col: 1 }
    } else {
        StreamPositionView { byte: p.byte + n, line: p.line, col: p.col + 1 }
    }
}

/// True when the position has room to advance by one more decoded unit (at
/// most 4 bytes) without its counters overflowing the machine word.
pub open spec fn pos_can_advance(p: StreamPositionView) -> bool {
    &&& p.byte + 4 <= usize::MAX
    &&& p.line + 1 <= usize::MAX
    &&& p.col + 1 <= usize::MAX
}

/// The position of a character within a UTF-8 stream.
#[derive(Clone, Copy, Debug, Hash, PartialEq, Eq, Structural)]
pub struct StreamPosition {
    /// Byte offset from the start of the stream, starting at 0.
    byte: usize,
    /// Line number within the stream, starting at 1.
    line_num: usize,
    /// Character offset within the line, starting at 1.
    char_ofs: usize,
}

impl View for StreamPosition {
    type V = StreamPositionView;

    closed spec fn view(&self) -> StreamPositionView {
        StreamPositionView {
            byte: self.byte as int,
            line: self.line_num as int,
            col: self.char_ofs as int,
        }
    }
}

impl StreamPosition {
    /// Constructs a new [`StreamPosition`] for the usual start of a stream:
    /// byte 0, first line, first character.
    pub fn new() -> (r: Self)
        ensures
            r@ == (StreamPositionView { byte: 0, line: 1, col: 1 }),
    {
        Self { byte: 0, line_num: 1, char_ofs: 1 }
    }

    /// Constructs a [`StreamPosition`] from a byte offset, line number and
    /// character offset, for resuming a stream fragment mid-file.
    pub fn of_blc(byte: usize, line_num: usize, char_ofs: usize) -> (r: Self)
        ensures
            r@ == (StreamPositionView {
                byte: byte as int,
                line: line_num as int,
                col: char_ofs as int,
            }),
    {
        Self { byte, line_num, char_ofs }
    }

    /// Moves the byte offset on by `n` bytes without consuming a character
    /// (to get past a malformed encoding, for example).
    pub(crate) fn move_on_bytes(&mut self, n: usize)
        requires
            old(self)@.byte + n <= usize::MAX,
        ensures
            final(self)@ == pos_after_bytes(old(self)@, n as int),
    {
        self.byte += n;
    }

    /// Moves the position on by a character `ch` whose encoding occupies `n`
    /// bytes.
    pub(crate) fn move_by(&mut self, n: usize, ch: char)
        requires
            old(self)@.byte + n <= usize::MAX,
            old(self)@.line + 1 <= usize::MAX,
            old(self)@.col + 1 <= usize::MAX,
        ensures
            final(self)@ == pos_after_char(old(self)@, n as int, ch),
    {
        self.byte += n;
        if ch == '\n' {
            self.line_num += 1;
            self.char_ofs = 1;
        } else {
            self.char_ofs += 1;
        }
    }

    /// The byte offset that the position holds.
    pub fn byte(&self) -> (r: usize)
        ensures
            r as int == self@.byte,
    {
        self.byte
    }

    /// The line number and the character offset within the line.
    pub fn line_position(&self) -> (r: (usize, usize))
        ensures
            r.0 as int == self@.line,
            r.1 as int == self@.col,
    {
        (self.line_num, self.char_ofs)
    }
}

} // verus!
