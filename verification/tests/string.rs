use utf8_read::{ByteSource, Char, Reader, VecSource};

/// A byte source that hands out at most `num_per_read` bytes per burst,
/// returning a zero-length read at each burst boundary until kicked.
struct StopStart {
    inner: VecSource,
    num_per_read: usize,
    offset: usize,
    eof: bool,
}

impl StopStart {
    fn new(inner: VecSource, num_per_read: usize) -> Self {
        Self { inner, num_per_read, offset: 0, eof: false }
    }

    fn kick(&mut self) {
        self.offset = 0;
    }

    fn is_eof(&self) -> bool {
        self.eof
    }
}

impl ByteSource for StopStart {
    fn read_bytes(&mut self, max: usize) -> Result<Vec<u8>, std::io::Error> {
        if self.offset == self.num_per_read {
            self.offset = 0;
            Ok(Vec::new())
        } else {
            let room = self.num_per_read - self.offset;
            let n = if room < max { room } else { max };
            let v = self.inner.read_bytes(n)?;
            self.offset += v.len();
            self.eof = v.is_empty();
            Ok(v)
        }
    }
}

fn test_string_whole(buf: &str) {
    let char_list: Vec<char> = buf.chars().collect();

    let mut reader = Reader::new(VecSource::new(buf.as_bytes().to_vec()));
    let mut n = 0;
    while let Some(ch) = reader.next() {
        assert!(ch.is_ok(), "No errors expected in this test");
        let ch = ch.unwrap();
        assert_eq!(ch, char_list[n], "Mismatch in characters from string {} {}", char_list[n], ch);
        n += 1;
    }
    assert_eq!(n, char_list.len(), "Must have consumed the whole string");
}

fn test_string_stop_start(buf: &str) {
    let char_list: Vec<char> = buf.chars().collect();

    let source = StopStart::new(VecSource::new(buf.as_bytes().to_vec()), 17);
    let mut reader = Reader::new(source).set_eof_on_no_data(false);
    let mut n = 0;
    loop {
        reader.borrow_mut().kick();
        while let Some(ch) = reader.next() {
            assert!(ch.is_ok(), "No errors expected in this test");
            let ch = ch.unwrap();
            assert_eq!(
                ch,
                char_list[n],
                "Mismatch in characters {} from string {} {}",
                n,
                char_list[n],
                ch
            );
            n += 1;
        }
        if reader.borrow().is_eof() {
            break;
        }
    }
    assert_eq!(n, char_list.len(), "Must have consumed the whole string");
}

fn test_string_stop_start2(buf: &str) {
    let char_list: Vec<char> = buf.chars().collect();

    let source = StopStart::new(VecSource::new(buf.as_bytes().to_vec()), 17);
    let mut reader = Reader::new(source).set_eof_on_no_data(false);
    let mut n = 0;
    loop {
        match reader.next_char() {
            Ok(Char::NoData) => {
                reader.borrow_mut().kick();
                if reader.borrow_mut().is_eof() {
                    reader.set_eof(true);
                }
            }
            Ok(Char::Char(ch)) => {
                assert_eq!(
                    ch,
                    char_list[n],
                    "Mismatch in characters {} from string {} {}",
                    n,
                    char_list[n],
                    ch
                );
                n += 1;
            }
            Ok(_) => {
                break;
            }
            Err(_) => {
                assert!(false, "Unexpected error returned");
            }
        }
    }
    assert_eq!(n, char_list.len(), "Must have consumed the whole string");
}

fn test_string(buf: &str) {
    test_string_whole(buf);
    test_string_stop_start(buf);
    test_string_stop_start2(buf);

    let mut a_long_string: String = buf.into();

    for _ in 0..8 {
        a_long_string = String::new() + &a_long_string + &a_long_string;
        test_string_whole(&a_long_string);
        test_string_stop_start(&a_long_string);
        test_string_stop_start2(&a_long_string);
    }
}

#[test]
fn test_hello() {
    test_string("Hello");
}

#[test]
fn test_longer() {
    test_string("13 characters");
}

#[test]
fn test_utf8_short() {
    test_string("\u{2764} \u{1f600}");
}

#[test]
fn test_utf8_long() {
    test_string("This is a \u{2764} string\nWith a newline\n\u{0065}\u{1f600}\u{1f600}\u{1f600}\u{1f600}\u{1f600}\u{1f600}\u{1f600}\u{1f600}\u{1f600}\u{1f600}\u{1f600}\u{1f600}\u{1f600}\u{1f600}\u{1f600}\u{1f600}");
}
