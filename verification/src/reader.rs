use crate::source::ByteSource;
use crate::stream_position::pos_after_bytes;
use crate::stream_position::pos_after_char;
use crate::stream_position::pos_can_advance;
use crate::stream_position::StreamPosition;
use crate::stream_position::StreamPositionView;
use crate::types::Char;
use crate::types::Error;
use crate::types::Result;
use crate::utf8_scan::decode_front;
use crate::utf8_scan::lemma_front_mutex;
use crate::utf8_scan::lemma_front_invalid_extend;
use crate::utf8_scan::lemma_valid_first_extend;
use crate::utf8_scan::lemma_valid_first_take;
use crate::utf8_scan::scalar_len_at;
use crate::utf8_scan::scan_window;
use crate::utf8_scan::utf8_error_len;
use crate::utf8_scan::utf8_front_invalid;
use crate::utf8_scan::utf8_needs_more;
use crate::utf8_scan::ScanTail;
use vstd::prelude::*;
use vstd::utf8::decode_first_scalar;
use vstd::utf8::encode_scalar;
use vstd::utf8::length_of_first_scalar;
use vstd::utf8::pop_first_scalar;
use vstd::utf8::valid_first_scalar;
use vstd::utf8::valid_utf8;

verus! {

/// Default number of bytes held in the internal buffer. The larger the
/// value, the larger the data requests made to the source.
pub const BUFFER_SIZE: usize = 2048;

/// When fewer free bytes than this remain past the live region, the live
/// region is compacted to the front of the buffer before the next fill; 4 is
/// the maximum length of one UTF-8 encoding.
pub const BUFFER_SLACK: usize = 4;

/// A streaming UTF-8 decoder over a [`ByteSource`].
pub struct Reader<R: ByteSource> {
    /// The source from which bytes are fetched.
    buf_reader: R,
    /// When true (the default), a zero-byte read from the source marks the
    /// end of the stream.
    eof_on_no_data: bool,
    /// Set when the stream is complete; once set, every outcome is
    /// [`crate::Char::Eof`].
    eof: bool,
    /// Internal staging buffer of fixed capacity.
    current: Vec<u8>,
    /// Offset of the first unconsumed byte within `current`.
    start: usize,
    /// Offset one past the last byte received from the source.
    end: usize,
    /// Offset one past the confirmed well-formed UTF-8 run that begins at
    /// `start`; always between `start` and `end`.
    valid_end: usize,
    /// Position in the stream of the next character.
    stream_pos: StreamPosition,
    /// Every byte ever received from the source, oldest first.
    fetched_bytes: Ghost<Seq<u8>>,
}

impl<R: ByteSource> Reader<R> {
    /// The bytes received from the source and not yet consumed.
    pub closed spec fn live(&self) -> Seq<u8> {
        self.current@.subrange(self.start as int, self.end as int)
    }

    /// Every byte received from the source since construction, oldest first.
    pub closed spec fn fetched(&self) -> Seq<u8> {
        self.fetched_bytes@
    }

    /// The bytes already consumed: everything fetched except the live tail.
    pub open spec fn consumed(&self) -> Seq<u8> {
        self.fetched().take(self.fetched().len() - self.live().len())
    }

    /// The end-of-stream flag.
    pub closed spec fn is_eof(&self) -> bool {
        self.eof
    }

    /// The configured policy for zero-byte reads.
    pub closed spec fn eof_policy(&self) -> bool {
        self.eof_on_no_data
    }

    /// The stream position of the next character.
    pub closed spec fn position(&self) -> StreamPosition {
        self.stream_pos
    }

    /// The underlying byte source.
    pub closed spec fn source(&self) -> R {
        self.buf_reader
    }

    /// The fixed capacity of the internal buffer.
    pub closed spec fn capacity(&self) -> int {
        self.current@.len() as int
    }

    /// Well-formedness: the three cursors are ordered within the buffer, the
    /// confirmed run between `start` and `valid_end` really is valid UTF-8,
    /// the buffer has room for one maximal encoding past its slack, and the
    /// live bytes are exactly the unconsumed tail of everything fetched.
    pub closed spec fn wf(&self) -> bool {
        &&& self.start <= self.valid_end <= self.end <= self.current@.len()
        &&& self.current@.len() > BUFFER_SLACK
        &&& valid_utf8(self.current@.subrange(self.start as int, self.valid_end as int))
        &&& self.live().len() <= self.fetched().len()
        &&& self.fetched().skip(self.fetched().len() - self.live().len()) == self.live()
    }

    /// Returns a new UTF-8 [`Reader`] over `buf_reader` with the default
    /// buffer capacity, positioned at byte 0, line 1, character 1, and
    /// treating a zero-byte read as end of stream.
    pub fn new(buf_reader: R) -> (r: Self)
        ensures
            r.wf(),
            r.live() == Seq::<u8>::empty(),
            r.fetched() == Seq::<u8>::empty(),
            !r.is_eof(),
            r.eof_policy(),
            r.position()@ == (StreamPositionView { byte: 0, line: 1, col: 1 }),
            r.source() == buf_reader,
            r.capacity() == BUFFER_SIZE,
    {
        Self::with_capacity(buf_reader, BUFFER_SIZE)
    }

    /// Returns a new UTF-8 [`Reader`] whose internal buffer holds `capacity`
    /// bytes; `capacity` must exceed the slack of 4 bytes, so that one
    /// maximal UTF-8 encoding always fits. Small capacities (such as 8) force
    /// frequent refills and compactions and are useful for boundary testing.
    pub fn with_capacity(buf_reader: R, capacity: usize) -> (r: Self)
        requires
            capacity > BUFFER_SLACK,
        ensures
            r.wf(),
            r.live() == Seq::<u8>::empty(),
            r.fetched() == Seq::<u8>::empty(),
            !r.is_eof(),
            r.eof_policy(),
            r.position()@ == (StreamPositionView { byte: 0, line: 1, col: 1 }),
            r.source() == buf_reader,
            r.capacity() == capacity,
    {
        let mut current: Vec<u8> = Vec::new();
        let mut i: usize = 0;
        while i < capacity
            invariant
                i <= capacity,
                current@.len() == i,
            decreases capacity - i,
        {
            current.push(0);
            i += 1;
        }
        let r = Self {
            buf_reader,
            eof_on_no_data: true,
            eof: false,
            current,
            start: 0,
            end: 0,
            valid_end: 0,
            stream_pos: StreamPosition::new(),
            fetched_bytes: Ghost(Seq::empty()),
        };
        proof {
            assert(r.live() =~= Seq::<u8>::empty());
            assert(r.fetched().skip(0) =~= r.live());
        }
        r
    }

    /// Builder: sets whether a zero-byte read from the source marks the end
    /// of the stream (the default) or merely a temporary absence of data.
    pub fn set_eof_on_no_data(self, eof_on_no_data: bool) -> (r: Self)
        ensures
            r.eof_policy() == eof_on_no_data,
            r.wf() == self.wf(),
            r.live() == self.live(),
            r.fetched() == self.fetched(),
            r.is_eof() == self.is_eof(),
            r.position() == self.position(),
            r.source() == self.source(),
            r.capacity() == self.capacity(),
    {
        let mut s = self;
        s.eof_on_no_data = eof_on_no_data;
        s
    }

    /// Sets the current stream position, for example when a UTF-8 stream is
    /// resumed in the middle of a larger byte stream.
    pub fn set_position(&mut self, stream_pos: StreamPosition)
        ensures
            final(self).position() == stream_pos,
            final(self).wf() == old(self).wf(),
            final(self).live() == old(self).live(),
            final(self).fetched() == old(self).fetched(),
            final(self).is_eof() == old(self).is_eof(),
            final(self).eof_policy() == old(self).eof_policy(),
            final(self).source() == old(self).source(),
            final(self).capacity() == old(self).capacity(),
    {
        self.stream_pos = stream_pos;
    }

    /// Sets the end-of-stream flag, for sources that complete but cannot
    /// signal it through a zero-byte read; once set, no further data is
    /// returned.
    pub fn set_eof(&mut self, eof: bool)
        ensures
            final(self).is_eof() == eof,
            final(self).wf() == old(self).wf(),
            final(self).live() == old(self).live(),
            final(self).fetched() == old(self).fetched(),
            final(self).position() == old(self).position(),
            final(self).eof_policy() == old(self).eof_policy(),
            final(self).source() == old(self).source(),
            final(self).capacity() == old(self).capacity(),
    {
        self.eof = eof;
    }

    /// The current end-of-stream flag.
    pub fn eof(&self) -> (r: bool)
        ensures
            r == self.is_eof(),
    {
        self.eof
    }

    /// Finishes with the stream, returning the byte source, the position of
    /// the next character (if there were to be one), and the exact
    /// unconsumed bytes.
    pub fn complete(self) -> (r: (R, StreamPosition, Vec<u8>))
        requires
            self.wf(),
        ensures
            r.0 == self.source(),
            r.1 == self.position(),
            r.2@ == self.live(),
    {
        let ghost pre = self;
        let Reader { buf_reader, stream_pos, current, start, end, .. } = self;
        let mut out: Vec<u8> = Vec::new();
        let mut i = start;
        while i < end
            invariant
                start <= i <= end <= current@.len(),
                out@ == current@.subrange(start as int, i as int),
            decreases end - i,
        {
            out.push(current[i]);
            proof {
                assert(out@ =~= current@.subrange(start as int, i + 1));
            }
            i += 1;
        }
        proof {
            assert(out@ =~= pre.live());
        }
        (buf_reader, stream_pos, out)
    }

    /// Discards the unconsumed bytes while still advancing the position's
    /// byte offset past them, for example after they have been borrowed and
    /// used elsewhere.
    pub fn drop_buffer(&mut self)
        requires
            old(self).wf(),
            old(self).position()@.byte + old(self).live().len() <= usize::MAX,
        ensures
            final(self).wf(),
            final(self).live() == Seq::<u8>::empty(),
            final(self).fetched() == old(self).fetched(),
            final(self).consumed() == old(self).fetched(),
            final(self).position()@ == pos_after_bytes(
                old(self).position()@,
                old(self).live().len() as int,
            ),
            final(self).is_eof() == old(self).is_eof(),
            final(self).eof_policy() == old(self).eof_policy(),
            final(self).source() == old(self).source(),
            final(self).capacity() == old(self).capacity(),
    {
        let n = self.end - self.start;
        self.stream_pos.move_on_bytes(n);
        self.start = self.end;
        self.valid_end = self.end;
        proof {
            assert(self.live() =~= Seq::<u8>::empty());
            assert(self.current@.subrange(self.start as int, self.valid_end as int)
                =~= Seq::<u8>::empty());
            assert(self.fetched().skip(self.fetched().len() - 0) =~= self.live());
            assert(self.consumed() =~= old(self).fetched());
        }
    }

    /// True when no unconsumed bytes are held.
    pub fn buffer_is_empty(&self) -> (r: bool)
        requires
            self.wf(),
        ensures
            r == (self.live().len() == 0),
    {
        self.start == self.end
    }

    /// Borrows the unconsumed bytes held in the internal buffer, without
    /// consuming them.
    pub fn borrow_buffer(&self) -> (r: &[u8])
        requires
            self.wf(),
        ensures
            r@ == self.live(),
    {
        vstd::slice::slice_subrange(self.current.as_slice(), self.start, self.end)
    }

    /// Borrows the stream position of the next character to be returned.
    pub fn borrow_pos(&self) -> (r: &StreamPosition)
        ensures
            *r == self.position(),
    {
        &self.stream_pos
    }

    /// Borrows the underlying byte source.
    pub fn borrow(&self) -> (r: &R)
        ensures
            *r == self.source(),
    {
        &self.buf_reader
    }

    /// Borrows the underlying byte source as a mutable reference.
    pub fn borrow_mut(&mut self) -> (r: &mut R)
        ensures
            *r == old(self).source(),
            final(self).source() == *final(r),
            final(self).wf() == old(self).wf(),
            final(self).live() == old(self).live(),
            final(self).fetched() == old(self).fetched(),
            final(self).position() == old(self).position(),
            final(self).is_eof() == old(self).is_eof(),
            final(self).eof_policy() == old(self).eof_policy(),
            final(self).capacity() == old(self).capacity(),
    {
        &mut self.buf_reader
    }

    /// Fetches more bytes from the source into the free tail of the buffer,
    /// compacting the live region to the front first when it sits too close
    /// to the end. Returns how many bytes were added; per the policy, adding
    /// none may set the end-of-stream flag. A source error is passed through
    /// wrapped, with nothing consumed or fetched.
    fn fetch_input(&mut self) -> (r: Result<usize>)
        requires
            old(self).wf(),
        ensures
            final(self).wf(),
            final(self).capacity() == old(self).capacity(),
            final(self).eof_policy() == old(self).eof_policy(),
            final(self).position() == old(self).position(),
            match r {
                Ok(n) => {
                    &&& n <= old(self).capacity() - old(self).live().len()
                    &&& final(self).fetched().len() == old(self).fetched().len() + n
                    &&& final(self).fetched().take(old(self).fetched().len() as int) == old(
                        self,
                    ).fetched()
                    &&& final(self).consumed() == old(self).consumed()
                    &&& final(self).live().len() == old(self).live().len() + n
                    &&& final(self).live().take(old(self).live().len() as int) == old(self).live()
                    &&& final(self).valid_end - final(self).start == old(self).valid_end - old(
                        self,
                    ).start
                    &&& final(self).is_eof() == (old(self).is_eof() || (n == 0 && old(
                        self,
                    ).eof_policy()))
                },
                Err(e) => {
                    &&& e matches Error::IoError(_)
                    &&& final(self).fetched() == old(self).fetched()
                    &&& final(self).live() == old(self).live()
                    &&& final(self).consumed() == old(self).consumed()
                    &&& final(self).valid_end - final(self).start == old(self).valid_end - old(
                        self,
                    ).start
                    &&& final(self).is_eof() == old(self).is_eof()
                },
            },
    {
        let cap = self.current.len();
        if self.start > cap - BUFFER_SLACK {
            let ghost pre = *self;
            let n = self.end - self.start;
            let base = self.start;
            let mut i: usize = 0;
            while i < n
                invariant
                    i <= n,
                    base + n <= cap,
                    cap == self.current@.len(),
                    base == self.start,
                    self.start == pre.start,
                    self.end == pre.end,
                    self.valid_end == pre.valid_end,
                    self.buf_reader == pre.buf_reader,
                    self.eof == pre.eof,
                    self.eof_on_no_data == pre.eof_on_no_data,
                    self.stream_pos == pre.stream_pos,
                    self.fetched_bytes == pre.fetched_bytes,
                    n == pre.end - pre.start,
                    pre.wf(),
                    forall|j: int| 0 <= j < i ==> self.current@[j] == pre.current@[base + j],
                    forall|j: int|
                        i <= j < self.current@.len() ==> self.current@[j] == pre.current@[j],
                decreases n - i,
            {
                let b = self.current[base + i];
                self.current[i] = b;
                i += 1;
            }
            self.valid_end = self.valid_end - self.start;
            self.end = n;
            self.start = 0;
            proof {
                assert(self.live() =~= pre.live());
                assert(self.current@.subrange(0, self.valid_end as int) =~= pre.current@.subrange(
                    pre.start as int,
                    pre.valid_end as int,
                ));
            }
        }
        let ghost mid = *self;
        assert(mid.live() == old(self).live());
        assert(mid.current@.subrange(mid.start as int, mid.valid_end as int)
            == old(self).current@.subrange(old(self).start as int, old(self).valid_end as int));
        let want = cap - self.end;
        match self.buf_reader.read_bytes(want) {
            Ok(v) => {
                let n = v.len();
                let base = self.end;
                let mut i: usize = 0;
                while i < n
                    invariant
                        i <= n,
                        n == v@.len(),
                        base + n <= cap,
                        cap == self.current@.len(),
                        base == self.end,
                        self.start == mid.start,
                        self.end == mid.end,
                        self.valid_end == mid.valid_end,
                        self.eof == mid.eof,
                        self.eof_on_no_data == mid.eof_on_no_data,
                        self.stream_pos == mid.stream_pos,
                        self.fetched_bytes == mid.fetched_bytes,
                        mid.wf(),
                        mid.start <= mid.valid_end <= mid.end <= cap,
                        forall|j: int|
                            0 <= j < base ==> self.current@[j] == mid.current@[j],
                        forall|j: int| 0 <= j < i ==> self.current@[base + j] == v@[j],
                    decreases n - i,
                {
                    let b = v[i];
                    self.current[base + i] = b;
                    i += 1;
                }
                self.end = base + n;
                proof {
                    self.fetched_bytes@ = mid.fetched_bytes@ + v@;
                }
                if n == 0 && self.eof_on_no_data {
                    self.eof = true;
                }
                proof {
                    assert(self.live() =~= mid.live() + v@);
                    assert(self.current@.subrange(self.start as int, self.valid_end as int)
                        =~= mid.current@.subrange(mid.start as int, mid.valid_end as int));
                    assert(self.fetched() == mid.fetched() + v@);
                    assert(self.fetched().take(mid.fetched().len() as int) =~= mid.fetched());
                    assert(self.fetched().skip(self.fetched().len() - self.live().len())
                        =~= self.live()) by {
                        assert(mid.fetched().skip(mid.fetched().len() - mid.live().len())
                            == mid.live());
                        assert(self.fetched().skip(self.fetched().len() - self.live().len())
                            =~= mid.fetched().skip(mid.fetched().len() - mid.live().len()) + v@);
                    }
                    assert(self.consumed() =~= mid.consumed());
                }
                Ok(n)
            },
            Err(e) => Err(Error::IoError(e)),
        }
    }

    /// Returns the next character from the stream, if one is available, or
    /// [`Char::Eof`] once the stream is complete.
    ///
    /// If there is no data — or not enough data — from the source, and the
    /// end of the stream has not been reached, [`Char::NoData`] is returned
    /// and nothing is consumed.
    ///
    /// # Errors
    ///
    /// Returns [`Error::MalformedUtf8`] when the next bytes of the stream do
    /// not form a well-formed UTF-8 encoding: either a definitely malformed
    /// unit, or an encoding left incomplete by the confirmed end of the
    /// stream. Returns [`Error::IoError`] when the source fails.
    pub fn next_char(&mut self) -> (r: Result<Char>)
        requires
            old(self).wf(),
            pos_can_advance(old(self).position()@),
        ensures
            final(self).wf(),
            final(self).capacity() == old(self).capacity(),
            final(self).eof_policy() == old(self).eof_policy(),
            match r {
                Ok(Char::Eof) => step_eof(*old(self), *final(self)),
                Ok(Char::NoData) => step_no_data(*old(self), *final(self)),
                Ok(Char::Char(c)) => step_char(*old(self), *final(self), c),
                Err(Error::MalformedUtf8(p, n)) => step_malformed(*old(self), *final(self), p, n),
                Err(Error::IoError(_)) => step_io_error(*old(self), *final(self)),
            },
            old(self).is_eof() ==> r == Ok::<Char, Error>(Char::Eof),
            !old(self).is_eof() && valid_first_scalar(old(self).live()) ==> r matches Ok(
                Char::Char(_),
            ),
            !old(self).is_eof() && utf8_front_invalid(old(self).live()) ==> r matches Err(
                Error::MalformedUtf8(_, _),
            ),
    {
        loop
            invariant
                self.wf(),
                self.capacity() == old(self).capacity(),
                self.eof_policy() == old(self).eof_policy(),
                self.position() == old(self).position(),
                pos_can_advance(self.position()@),
                self.consumed() == old(self).consumed(),
                self.fetched().len() >= old(self).fetched().len(),
                self.fetched().take(old(self).fetched().len() as int) == old(self).fetched(),
                self.live().len() >= old(self).live().len(),
                self.live().take(old(self).live().len() as int) == old(self).live(),
                self.is_eof() == old(self).is_eof(),
                self.is_eof() ==> *self == *old(self),
            decreases self.capacity() - self.live().len(), self.end - self.valid_end,
        {
            if self.eof {
                return Ok(Char::Eof);
            }
            if self.start == self.end {
                proof {
                    assert(self.live() =~= Seq::<u8>::empty());
                    assert(old(self).live() =~= Seq::<u8>::empty());
                }
                let ghost mid = *self;
                match self.fetch_input() {
                    Ok(n) => {
                        proof {
                            lemma_grow_prefix(*old(self), mid, *self);
                        }
                        if n == 0 {
                            proof {
                                assert(self.fetched() =~= old(self).fetched());
                                assert(self.live() =~= old(self).live());
                            }
                            if self.eof {
                                return Ok(Char::Eof);
                            } else {
                                return Ok(Char::NoData);
                            }
                        }
                        // new data arrived: start over from the top
                    },
                    Err(e) => {
                        return Err(e);
                    },
                }
            } else if self.start < self.valid_end {
                // a confirmed well-formed run is available: decode one scalar
                let ghost run = self.current@.subrange(self.start as int, self.valid_end as int);
                let ghost live = self.live();
                proof {
                    assert(valid_first_scalar(run));
                    lemma_valid_first_extend(run, live.skip(self.valid_end - self.start));
                    assert(run + live.skip(self.valid_end - self.start) =~= live);
                }
                let n = scalar_len_at(&self.current, self.start, self.valid_end);
                proof {
                    lemma_valid_first_take(run);
                    assert(run.take(n as int) =~= self.current@.subrange(
                        self.start as int,
                        self.start + n,
                    ));
                }
                let c = decode_front(&self.current, self.start, n);
                let ghost mid = *self;
                self.start = self.start + n;
                self.stream_pos.move_by(n, c);
                proof {
                    assert(self.live() =~= mid.live().skip(n as int));
                    lemma_consume(*old(self), mid, *self, n as int);
                    assert(encode_scalar(c as u32) == live.take(n as int)) by {
                        assert(live.take(n as int) =~= run.take(n as int));
                    }
                    assert(self.current@.subrange(self.start as int, self.valid_end as int)
                        =~= pop_first_scalar(run));
                    lemma_not_invalid_front(*old(self), live);
                }
                return Ok(Char::Char(c));
            } else {
                // unscanned bytes exist: find the longest well-formed prefix
                let ghost live = self.live();
                let report = scan_window(&self.current, self.valid_end, self.end);
                proof {
                    assert(live.skip(report.valid_len as int) =~= self.current@.subrange(
                        self.valid_end + report.valid_len,
                        self.end as int,
                    ));
                    assert(live =~= self.current@.subrange(self.valid_end as int, self.end as int));
                }
                if report.valid_len > 0 {
                    let ghost mid = *self;
                    self.valid_end = self.valid_end + report.valid_len;
                    proof {
                        assert(self.current@.subrange(self.start as int, self.valid_end as int)
                            =~= live.take(report.valid_len as int));
                        assert(self.live() =~= mid.live());
                    }
                    // re-enter the loop with the run confirmed
                } else {
                    match report.tail {
                        ScanTail::Done => {
                            // a nonempty window cannot be fully valid with an
                            // empty valid prefix
                            vstd::pervasive::unreached()
                        },
                        ScanTail::NeedsMore => {
                            proof {
                                assert(live.skip(0) =~= live);
                            }
                            let ghost mid = *self;
                            match self.fetch_input() {
                                Ok(n) => {
                                    proof {
                                        lemma_grow_prefix(*old(self), mid, *self);
                                    }
                                    if n == 0 {
                                        proof {
                                            assert(self.fetched() =~= mid.fetched());
                                            assert(self.live() =~= mid.live());
                                        }
                                        if self.eof {
                                            // the stream ended inside a truncated
                                            // encoding: its leftover bytes are one
                                            // malformed unit, consumed here
                                            let pos = self.stream_pos;
                                            let count = self.end - self.start;
                                            let ghost mid2 = *self;
                                            self.stream_pos.move_on_bytes(count);
                                            self.start = self.end;
                                            self.valid_end = self.end;
                                            proof {
                                                assert(self.live() =~= mid2.live().skip(
                                                    count as int,
                                                ));
                                                lemma_consume(
                                                    *old(self),
                                                    mid2,
                                                    *self,
                                                    count as int,
                                                );
                                                assert(self.current@.subrange(
                                                    self.start as int,
                                                    self.valid_end as int,
                                                ) =~= Seq::<u8>::empty());
                                                lemma_not_valid_first(*old(self), live);
                                            }
                                            return Error::malformed_utf8(pos, count);
                                        } else {
                                            proof {
                                                lemma_not_valid_first(*old(self), live);
                                                lemma_not_invalid_front(*old(self), live);
                                            }
                                            return Ok(Char::NoData);
                                        }
                                    }
                                    // new data arrived: start over from the top
                                },
                                Err(e) => {
                                    proof {
                                        lemma_not_valid_first(*old(self), live);
                                        lemma_not_invalid_front(*old(self), live);
                                    }
                                    return Err(e);
                                },
                            }
                        },
                        ScanTail::Bad { len } => {
                            let pos = self.stream_pos;
                            let ghost mid = *self;
                            self.stream_pos.move_on_bytes(len);
                            self.start = self.start + len;
                            self.valid_end = self.start;
                            proof {
                                assert(self.live() =~= mid.live().skip(len as int));
                                lemma_consume(*old(self), mid, *self, len as int);
                                assert(self.current@.subrange(
                                    self.start as int,
                                    self.valid_end as int,
                                ) =~= Seq::<u8>::empty());
                                lemma_not_valid_first(*old(self), live);
                            }
                            return Error::malformed_utf8(pos, len);
                        },
                    }
                }
            }
        }
    }

    /// Pulls the next entry of the lazy character sequence: `Some(Ok(ch))`
    /// for a decoded character, `Some(Err(e))` for a malformed encoding or a
    /// source error, and `None` on end of stream or on a temporary absence
    /// of data. After a `None` caused by absence of data, pulling again
    /// later resumes exactly where the sequence left off.
    pub fn next(&mut self) -> (r: Option<Result<char>>)
        requires
            old(self).wf(),
            pos_can_advance(old(self).position()@),
        ensures
            final(self).wf(),
            final(self).capacity() == old(self).capacity(),
            final(self).eof_policy() == old(self).eof_policy(),
            match r {
                Some(Ok(c)) => step_char(*old(self), *final(self), c),
                Some(Err(Error::MalformedUtf8(p, n))) => step_malformed(
                    *old(self),
                    *final(self),
                    p,
                    n,
                ),
                Some(Err(Error::IoError(_))) => step_io_error(*old(self), *final(self)),
                None => step_eof(*old(self), *final(self)) || step_no_data(
                    *old(self),
                    *final(self),
                ),
            },
            old(self).is_eof() ==> r is None,
            !old(self).is_eof() && valid_first_scalar(old(self).live()) ==> r matches Some(Ok(_)),
            !old(self).is_eof() && utf8_front_invalid(old(self).live()) ==> r matches Some(
                Err(_),
            ),
    {
        match self.next_char() {
            Ok(Char::Char(ch)) => Some(Ok(ch)),
            Ok(_) => None,
            Err(x) => Some(Err(x)),
        }
    }
}

/// Law: everything fetched from the source splits exactly into the consumed
/// prefix and the live (unconsumed) tail.
pub proof fn lemma_stream_parts<R: ByteSource>(r: Reader<R>)
    requires
        r.wf(),
    ensures
        r.consumed().len() + r.live().len() == r.fetched().len(),
        r.fetched().skip(r.consumed().len() as int) == r.live(),
        r.consumed() + r.live() == r.fetched(),
{
    assert(r.consumed() + r.live() =~= r.fetched());
}

/// Growing the buffer twice in a row keeps the earliest bytes as a prefix:
/// prefix preservation composes.
proof fn lemma_grow_prefix<R: ByteSource>(pre: Reader<R>, mid: Reader<R>, post: Reader<R>)
    requires
        mid.fetched().len() >= pre.fetched().len(),
        mid.fetched().take(pre.fetched().len() as int) == pre.fetched(),
        mid.live().len() >= pre.live().len(),
        mid.live().take(pre.live().len() as int) == pre.live(),
        post.fetched().len() >= mid.fetched().len(),
        post.fetched().take(mid.fetched().len() as int) == mid.fetched(),
        post.live().len() >= mid.live().len(),
        post.live().take(mid.live().len() as int) == mid.live(),
    ensures
        post.fetched().len() >= pre.fetched().len(),
        post.fetched().take(pre.fetched().len() as int) == pre.fetched(),
        post.live().len() >= pre.live().len(),
        post.live().take(pre.live().len() as int) == pre.live(),
{
    assert(post.fetched().take(pre.fetched().len() as int) =~= mid.fetched().take(
        pre.fetched().len() as int,
    ));
    assert(post.live().take(pre.live().len() as int) =~= mid.live().take(
        pre.live().len() as int,
    ));
}

/// Bookkeeping for consuming `n` bytes from the front of the live region:
/// the live bytes at consumption time are exactly the unconsumed tail of
/// everything fetched, and consuming moves their first `n` bytes over to the
/// consumed prefix.
proof fn lemma_consume<R: ByteSource>(pre: Reader<R>, mid: Reader<R>, post: Reader<R>, n: int)
    requires
        mid.live().len() <= mid.fetched().len(),
        mid.fetched().skip(mid.fetched().len() - mid.live().len()) == mid.live(),
        mid.consumed() == pre.consumed(),
        mid.fetched().len() >= pre.fetched().len(),
        mid.fetched().take(pre.fetched().len() as int) == pre.fetched(),
        post.fetched() == mid.fetched(),
        0 <= n <= mid.live().len(),
        post.live() == mid.live().skip(n),
    ensures
        post.live().len() <= post.fetched().len(),
        post.fetched().skip(post.fetched().len() - post.live().len()) == post.live(),
        mid.live() == post.fetched().skip(pre.consumed().len() as int),
        post.consumed() == pre.consumed() + mid.live().take(n),
        post.consumed() == pre.consumed() + post.fetched().skip(
            pre.consumed().len() as int,
        ).take(n),
        post.fetched().take(pre.fetched().len() as int) == pre.fetched(),
        post.consumed().len() == pre.consumed().len() + n,
{
    let f = mid.fetched();
    let l = mid.live();
    let k = f.len() - l.len();
    assert(mid.consumed() == f.take(k));
    assert(pre.consumed().len() == k);
    assert(post.fetched().skip(post.fetched().len() - post.live().len()) =~= l.skip(n));
    assert(f.take(k + n) =~= f.take(k) + l.take(n));
    assert(post.consumed() == f.take(k + n));
    assert(post.consumed() =~= pre.consumed() + mid.live().take(n));
    assert(post.fetched().skip(pre.consumed().len() as int) =~= l);
}

/// At a verdict other than a decoded character, the bytes that were already
/// held when the call began cannot have started with a well-formed scalar
/// encoding: the prefix of a truncated or malformed window is not one.
proof fn lemma_not_valid_first<R: ByteSource>(pre: Reader<R>, live_now: Seq<u8>)
    requires
        live_now.len() >= pre.live().len(),
        live_now.take(pre.live().len() as int) == pre.live(),
        utf8_needs_more(live_now) || utf8_front_invalid(live_now),
    ensures
        !valid_first_scalar(pre.live()),
{
    if valid_first_scalar(pre.live()) {
        lemma_valid_first_extend(pre.live(), live_now.skip(pre.live().len() as int));
        assert(pre.live() + live_now.skip(pre.live().len() as int) =~= live_now);
        lemma_front_mutex(live_now);
    }
}

/// At a verdict that waits for more bytes, the bytes that were already held
/// when the call began cannot have started with a definitely malformed
/// unit: a malformed front would have stayed malformed.
proof fn lemma_not_invalid_front<R: ByteSource>(pre: Reader<R>, live_now: Seq<u8>)
    requires
        live_now.len() >= pre.live().len(),
        live_now.take(pre.live().len() as int) == pre.live(),
        utf8_needs_more(live_now) || valid_first_scalar(live_now),
    ensures
        !utf8_front_invalid(pre.live()),
{
    if utf8_front_invalid(pre.live()) {
        lemma_front_invalid_extend(pre.live(), live_now.skip(pre.live().len() as int));
        assert(pre.live() + live_now.skip(pre.live().len() as int) =~= live_now);
    }
}

/// Outcome relation for [`Reader::next_char`] returning [`Char::Eof`]: the
/// reader is at its confirmed end — either it already was, or an empty
/// buffer met a zero-byte read under the end-on-no-data policy — and nothing
/// is consumed or repositioned, now or ever after.
pub open spec fn step_eof<R: ByteSource>(pre: Reader<R>, post: Reader<R>) -> bool {
    &&& post.is_eof()
    &&& post.fetched() == pre.fetched()
    &&& post.consumed() == pre.consumed()
    &&& post.live() == pre.live()
    &&& post.position() == pre.position()
    &&& pre.is_eof() || (pre.live().len() == 0 && pre.eof_policy())
}

/// Outcome relation for [`Reader::next_char`] returning [`Char::NoData`]:
/// the source is temporarily exhausted, nothing is consumed and the
/// position is unchanged; whatever bytes are now held are at most a
/// truncated encoding, still waiting for completion.
pub open spec fn step_no_data<R: ByteSource>(pre: Reader<R>, post: Reader<R>) -> bool {
    &&& !pre.is_eof() && !post.is_eof()
    &&& post.fetched().len() >= pre.fetched().len()
    &&& post.fetched().take(pre.fetched().len() as int) == pre.fetched()
    &&& post.consumed() == pre.consumed()
    &&& post.position() == pre.position()
    &&& post.live().len() == 0 || utf8_needs_more(post.live())
}

/// Outcome relation for [`Reader::next_char`] returning a character `c`:
/// the unconsumed stream (previous bytes plus whatever was fetched) begins
/// with a well-formed scalar encoding, `c` is its scalar, exactly its bytes
/// — which are `c`'s UTF-8 encoding — are consumed, and the position
/// advances by `c` over that many bytes.
pub open spec fn step_char<R: ByteSource>(pre: Reader<R>, post: Reader<R>, c: char) -> bool {
    let s = post.fetched().skip(pre.consumed().len() as int);
    &&& !pre.is_eof() && !post.is_eof()
    &&& post.fetched().len() >= pre.fetched().len()
    &&& post.fetched().take(pre.fetched().len() as int) == pre.fetched()
    &&& valid_first_scalar(s)
    &&& c as u32 == decode_first_scalar(s)
    &&& encode_scalar(c as u32) == s.take(length_of_first_scalar(s))
    &&& post.consumed() == pre.consumed() + encode_scalar(c as u32)
    &&& post.position()@ == pos_after_char(pre.position()@, length_of_first_scalar(s), c)
}

/// Outcome relation for [`Reader::next_char`] returning a malformed-UTF-8
/// error: the error carries the position where the reader stood and the
/// unit's byte length `n`, exactly `n` bytes are consumed, and only the
/// byte offset of the position moves. When the stream's end is confirmed
/// the unit is the leftover truncated encoding, wholly consumed; otherwise
/// the front of the unconsumed stream is definitely malformed and `n` is
/// the length its bytes are attributed.
pub open spec fn step_malformed<R: ByteSource>(
    pre: Reader<R>,
    post: Reader<R>,
    p: StreamPosition,
    n: usize,
) -> bool {
    let s = post.fetched().skip(pre.consumed().len() as int);
    &&& !pre.is_eof()
    &&& p == pre.position()
    &&& 1 <= n <= 3
    &&& post.fetched().len() >= pre.fetched().len()
    &&& post.fetched().take(pre.fetched().len() as int) == pre.fetched()
    &&& post.position()@ == pos_after_bytes(pre.position()@, n as int)
    &&& post.consumed() == pre.consumed() + s.take(n as int)
    &&& if post.is_eof() {
        &&& utf8_needs_more(s)
        &&& n == s.len()
        &&& post.live().len() == 0
    } else {
        &&& utf8_front_invalid(s)
        &&& n as int == utf8_error_len(s)
    }
}

/// Outcome relation for [`Reader::next_char`] returning a source error: the
/// error is the source's own, nothing is consumed, the position is
/// unchanged, and a fetch was genuinely needed — the bytes previously held
/// were at most a truncated encoding.
pub open spec fn step_io_error<R: ByteSource>(pre: Reader<R>, post: Reader<R>) -> bool {
    &&& !pre.is_eof() && !post.is_eof()
    &&& post.fetched().len() >= pre.fetched().len()
    &&& post.fetched().take(pre.fetched().len() as int) == pre.fetched()
    &&& post.consumed() == pre.consumed()
    &&& post.position() == pre.position()
    &&& pre.live().len() == 0 || utf8_needs_more(pre.live())
}

} // verus!
