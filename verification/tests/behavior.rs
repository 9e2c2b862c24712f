use utf8_read::{ByteSource, Char, Error, Reader, StreamPosition, VecSource};

/// A byte source that hands out a fixed list of chunks, one read per chunk
/// (splitting a chunk when the caller asks for less), then zero-length
/// reads forever.
struct ChunkSource {
    chunks: Vec<Vec<u8>>,
    next: usize,
}

impl ChunkSource {
    fn new(chunks: Vec<Vec<u8>>) -> Self {
        Self { chunks, next: 0 }
    }
}

impl ByteSource for ChunkSource {
    fn read_bytes(&mut self, max: usize) -> Result<Vec<u8>, std::io::Error> {
        if self.next >= self.chunks.len() {
            return Ok(Vec::new());
        }
        let mut c = self.chunks[self.next].clone();
        if c.len() > max {
            let rest = c.split_off(max);
            self.chunks[self.next] = rest;
        } else {
            self.next += 1;
        }
        Ok(c)
    }
}

/// A byte source whose every read fails.
struct FailSource;

impl ByteSource for FailSource {
    fn read_bytes(&mut self, _max: usize) -> Result<Vec<u8>, std::io::Error> {
        Err(std::io::Error::new(std::io::ErrorKind::Other, "source failure"))
    }
}

fn expect_malformed(r: Result<Char, Error>, byte: usize, line: usize, col: usize, len: usize) {
    match r {
        Err(Error::MalformedUtf8(p, n)) => {
            assert_eq!(p, StreamPosition::of_blc(byte, line, col), "error position");
            assert_eq!(n, len, "error byte length");
        }
        other => panic!("expected a malformed unit, got {:?}", other),
    }
}

#[test]
fn test_round_trip_small_capacity_chunked() {
    let text = "h\u{e9}llo w\u{f6}rld \u{2764}\u{1f600}\nsecond line\n";
    for cap in [5usize, 8, 16] {
        for burst in [1usize, 2, 3, 7] {
            let chunks: Vec<Vec<u8>> = text.as_bytes().chunks(burst).map(|c| c.to_vec()).collect();
            let mut reader = Reader::with_capacity(ChunkSource::new(chunks), cap);
            let mut out = String::new();
            loop {
                match reader.next_char().unwrap() {
                    Char::Char(c) => out.push(c),
                    Char::Eof => break,
                    Char::NoData => unreachable!(),
                }
            }
            assert_eq!(out, text, "capacity {} burst {}", cap, burst);
        }
    }
}

#[test]
fn test_split_encoding_matches_single_fetch() {
    let bytes = "\u{1f600}".as_bytes();
    for cap in [5usize, 6, 8, 2048] {
        for split in 1..bytes.len() {
            let chunks = vec![bytes[..split].to_vec(), bytes[split..].to_vec()];
            let mut split_reader = Reader::with_capacity(ChunkSource::new(chunks), cap);
            let mut whole_reader = Reader::with_capacity(VecSource::new(bytes.to_vec()), cap);
            loop {
                let a = split_reader.next_char().unwrap();
                let b = whole_reader.next_char().unwrap();
                assert_eq!(a, b, "capacity {} split {}", cap, split);
                if a == Char::Eof {
                    break;
                }
            }
        }
    }
}

#[test]
fn test_stray_continuation_then_ascii() {
    let mut reader = Reader::new(VecSource::new(b"\x80ab".to_vec()));
    expect_malformed(reader.next_char(), 0, 1, 1, 1);
    // the following ASCII decodes normally, continuing from the error's end
    assert_eq!(reader.borrow_pos().byte(), 1);
    assert_eq!(reader.borrow_pos().line_position(), (1, 1));
    assert!(matches!(reader.next_char(), Ok(Char::Char('a'))));
    assert!(matches!(reader.next_char(), Ok(Char::Char('b'))));
    assert!(matches!(reader.next_char(), Ok(Char::Eof)));
}

#[test]
fn test_truncated_at_end_of_stream() {
    // 0xC2 leads a 2-byte encoding; the stream ends before the continuation.
    // Under the default policy the zero-byte read confirms the end, and the
    // leftover byte is reported as exactly one malformed unit, then Eof.
    let mut reader = Reader::new(VecSource::new(b"\xc2".to_vec()));
    expect_malformed(reader.next_char(), 0, 1, 1, 1);
    assert!(matches!(reader.next_char(), Ok(Char::Eof)));

    // While the source might still supply the continuation byte, the
    // truncated encoding is never reported malformed: only NoData comes.
    let mut reader = Reader::new(VecSource::new(b"\xc2".to_vec())).set_eof_on_no_data(false);
    assert!(matches!(reader.next_char(), Ok(Char::NoData)));
    assert!(matches!(reader.next_char(), Ok(Char::NoData)));

    // 0xC0, by contrast, can never begin a well-formed encoding, so it is
    // reported at once even when the source might still supply more bytes.
    let mut reader = Reader::new(VecSource::new(b"\xc0".to_vec())).set_eof_on_no_data(false);
    expect_malformed(reader.next_char(), 0, 1, 1, 1);
}

#[test]
fn test_overlong_nul_two_units() {
    let mut reader = Reader::new(VecSource::new(b"\xc0\x80".to_vec()));
    expect_malformed(reader.next_char(), 0, 1, 1, 1);
    expect_malformed(reader.next_char(), 1, 1, 1, 1);
    assert!(matches!(reader.next_char(), Ok(Char::Eof)));
}

#[test]
fn test_space_then_overlong_pair() {
    let mut reader = Reader::new(VecSource::new(b" \xc0\x80".to_vec()));
    assert_eq!(reader.borrow_pos().byte(), 0);
    assert_eq!(reader.borrow_pos().line_position(), (1, 1));
    assert!(matches!(reader.next_char(), Ok(Char::Char(' '))));
    expect_malformed(reader.next_char(), 1, 1, 2, 1);
    expect_malformed(reader.next_char(), 2, 1, 2, 1);
    assert!(matches!(reader.next_char(), Ok(Char::Eof)));
    assert!(matches!(reader.next_char(), Ok(Char::Eof)));
}

#[test]
fn test_newline_resets_column() {
    let mut reader = Reader::new(VecSource::new(b"a\nb\x80\nc".to_vec()));
    assert!(matches!(reader.next_char(), Ok(Char::Char('a'))));
    assert_eq!(reader.borrow_pos().line_position(), (1, 2));
    assert!(matches!(reader.next_char(), Ok(Char::Char('\n'))));
    assert_eq!(reader.borrow_pos().line_position(), (2, 1));
    assert!(matches!(reader.next_char(), Ok(Char::Char('b'))));
    assert_eq!(reader.borrow_pos().line_position(), (2, 2));
    // the malformed byte moves only the byte offset, not line or column
    expect_malformed(reader.next_char(), 3, 2, 2, 1);
    assert_eq!(reader.borrow_pos().byte(), 4);
    assert_eq!(reader.borrow_pos().line_position(), (2, 2));
    assert!(matches!(reader.next_char(), Ok(Char::Char('\n'))));
    assert_eq!(reader.borrow_pos().line_position(), (3, 1));
    assert!(matches!(reader.next_char(), Ok(Char::Char('c'))));
    assert_eq!(reader.borrow_pos().line_position(), (3, 2));
    assert!(matches!(reader.next_char(), Ok(Char::Eof)));
}

#[test]
fn test_release_and_resume() {
    let text = "p\u{e2}t\u{e9}\nplus";
    let bytes = text.as_bytes().to_vec();

    // uninterrupted decode, recording the position before each character
    let mut all_positions: Vec<StreamPosition> = Vec::new();
    let mut all_chars: Vec<char> = Vec::new();
    let mut r0 = Reader::with_capacity(VecSource::new(bytes.clone()), 6);
    loop {
        let p = *r0.borrow_pos();
        match r0.next_char().unwrap() {
            Char::Char(c) => {
                all_positions.push(p);
                all_chars.push(c);
            }
            _ => break,
        }
    }

    // interrupted decode: three characters, then release mid-stream
    let mut r1 = Reader::with_capacity(VecSource::new(bytes.clone()), 6);
    let mut got_positions: Vec<StreamPosition> = Vec::new();
    let mut got_chars: Vec<char> = Vec::new();
    for _ in 0..3 {
        let p = *r1.borrow_pos();
        match r1.next_char().unwrap() {
            Char::Char(c) => {
                got_positions.push(p);
                got_chars.push(c);
            }
            other => panic!("expected a character, got {:?}", other),
        }
    }
    let (mut source, pos, tail) = r1.complete();

    // the position matches the byte offset of the first unconsumed byte
    let consumed: usize = got_chars.iter().map(|c| c.len_utf8()).sum();
    assert_eq!(pos.byte(), consumed);

    // the tail plus what the source still holds is the exact remainder
    let mut rest = tail.clone();
    loop {
        let v = source.read_bytes(4096).unwrap();
        if v.is_empty() {
            break;
        }
        rest.extend_from_slice(&v);
    }
    assert_eq!(rest, bytes[consumed..].to_vec());

    // a fresh decoder over the remainder, at the returned position,
    // continues numbering identically to the uninterrupted decode
    let mut r2 = Reader::with_capacity(VecSource::new(rest), 6);
    r2.set_position(pos);
    loop {
        let p = *r2.borrow_pos();
        match r2.next_char().unwrap() {
            Char::Char(c) => {
                got_positions.push(p);
                got_chars.push(c);
            }
            _ => break,
        }
    }
    assert_eq!(got_chars, all_chars);
    assert_eq!(got_positions, all_positions);
}

#[test]
fn test_source_error_passes_through() {
    let mut reader = Reader::new(FailSource);
    match reader.next_char() {
        Err(Error::IoError(e)) => assert_eq!(e.kind(), std::io::ErrorKind::Other),
        other => panic!("expected the source's error, got {:?}", other),
    }
    // nothing was consumed or repositioned
    assert_eq!(reader.borrow_pos().byte(), 0);
    assert!(reader.buffer_is_empty());
}

#[test]
fn test_borrow_and_drop_buffer() {
    let mut reader = Reader::new(VecSource::new(b"ab\xc2".to_vec()));
    assert!(reader.buffer_is_empty());
    assert!(matches!(reader.next_char(), Ok(Char::Char('a'))));
    assert!(!reader.buffer_is_empty());
    assert_eq!(reader.borrow_buffer(), b"b\xc2");
    assert_eq!(reader.borrow_pos().byte(), 1);
    reader.drop_buffer();
    assert!(reader.buffer_is_empty());
    // dropping advances the byte offset past the discarded bytes,
    // leaving line and column untouched
    assert_eq!(reader.borrow_pos().byte(), 3);
    assert_eq!(reader.borrow_pos().line_position(), (1, 2));
    let (_, pos, tail) = reader.complete();
    assert_eq!(tail.len(), 0);
    assert_eq!(pos.byte(), 3);
}

#[test]
fn test_set_eof_halts_and_resumes() {
    let mut reader = Reader::new(VecSource::new(b"abc".to_vec()));
    assert!(!reader.eof());
    assert!(matches!(reader.next_char(), Ok(Char::Char('a'))));
    reader.set_eof(true);
    assert!(reader.eof());
    assert!(matches!(reader.next_char(), Ok(Char::Eof)));
    assert!(matches!(reader.next_char(), Ok(Char::Eof)));
    reader.set_eof(false);
    assert!(matches!(reader.next_char(), Ok(Char::Char('b'))));
}

#[test]
fn test_stream_position_accessors() {
    let p = StreamPosition::new();
    assert_eq!(p.byte(), 0);
    assert_eq!(p.line_position(), (1, 1));
    let q = StreamPosition::of_blc(42, 7, 3);
    assert_eq!(q.byte(), 42);
    assert_eq!(q.line_position(), (7, 3));
    assert_ne!(p, q);
    assert_eq!(q, StreamPosition::of_blc(42, 7, 3));
}

#[test]
fn test_malformed_utf8_constructor() {
    let r: Result<char, Error> = Error::malformed_utf8(StreamPosition::of_blc(5, 2, 3), 2);
    match r {
        Err(Error::MalformedUtf8(p, n)) => {
            assert_eq!(p.byte(), 5);
            assert_eq!(p.line_position(), (2, 3));
            assert_eq!(n, 2);
        }
        _ => panic!("expected the malformed variant"),
    }
}

#[test]
fn test_borrow_source() {
    let mut reader = Reader::new(VecSource::new(b"hi".to_vec()));
    {
        let _s: &VecSource = reader.borrow();
    }
    {
        let _s: &mut VecSource = reader.borrow_mut();
    }
    assert!(matches!(reader.next_char(), Ok(Char::Char('h'))));
}

#[test]
fn test_short_three_byte_encoding_two_units() {
    // 0xE0 0x9F would lead an overlong 3-byte encoding: the scan rejects the
    // lead after one byte, then the stray continuation byte after one more.
    let mut reader = Reader::new(VecSource::new(b"\xe0\x9f\x80A".to_vec()));
    expect_malformed(reader.next_char(), 0, 1, 1, 1);
    expect_malformed(reader.next_char(), 1, 1, 1, 1);
    expect_malformed(reader.next_char(), 2, 1, 1, 1);
    assert!(matches!(reader.next_char(), Ok(Char::Char('A'))));
    assert!(matches!(reader.next_char(), Ok(Char::Eof)));
}

#[test]
fn test_error_lengths_two_and_three() {
    // a 3-byte lead with a good second byte but a bad third: a 2-byte unit
    let mut reader = Reader::new(VecSource::new(b"\xe2\x82A".to_vec()));
    expect_malformed(reader.next_char(), 0, 1, 1, 2);
    assert!(matches!(reader.next_char(), Ok(Char::Char('A'))));
    assert!(matches!(reader.next_char(), Ok(Char::Eof)));

    // a 4-byte lead with good second and third bytes but a bad fourth: a
    // 3-byte unit
    let mut reader = Reader::new(VecSource::new(b"\xf0\x9f\x98A".to_vec()));
    expect_malformed(reader.next_char(), 0, 1, 1, 3);
    assert!(matches!(reader.next_char(), Ok(Char::Char('A'))));
    assert!(matches!(reader.next_char(), Ok(Char::Eof)));
}

#[test]
fn test_surrogate_and_out_of_range() {
    // 0xED 0xA0 0x80 would encode a surrogate: rejected at the second byte
    let mut reader = Reader::new(VecSource::new(b"\xed\xa0\x80".to_vec()));
    expect_malformed(reader.next_char(), 0, 1, 1, 1);
    expect_malformed(reader.next_char(), 1, 1, 1, 1);
    expect_malformed(reader.next_char(), 2, 1, 1, 1);
    assert!(matches!(reader.next_char(), Ok(Char::Eof)));

    // 0xF5 can never begin an encoding of a Unicode scalar
    let mut reader = Reader::new(VecSource::new(b"\xf5\x80".to_vec()));
    expect_malformed(reader.next_char(), 0, 1, 1, 1);
    expect_malformed(reader.next_char(), 1, 1, 1, 1);
    assert!(matches!(reader.next_char(), Ok(Char::Eof)));
}

#[test]
fn test_truncated_four_byte_tail_at_end() {
    // three good bytes of a 4-byte encoding, then the stream ends: the
    // whole leftover run is one malformed unit of length 3
    let mut reader = Reader::new(VecSource::new(b"A\xf0\x9f\x98".to_vec()));
    assert!(matches!(reader.next_char(), Ok(Char::Char('A'))));
    expect_malformed(reader.next_char(), 1, 1, 2, 3);
    assert!(matches!(reader.next_char(), Ok(Char::Eof)));
}
