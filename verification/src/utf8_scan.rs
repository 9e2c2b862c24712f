//! Classification of the front of a byte window for incremental UTF-8
//! decoding.
//!
//! The central distinction is between a window front that is a well-formed
//! scalar encoding, one that is merely *truncated* (a proper prefix of a
//! well-formed encoding, which more bytes could still complete), and one that
//! is *definitely malformed* (no extension can ever make it well-formed). The
//! byte-length attributed to a malformed unit is the length of the longest
//! prefix that could begin a well-formed encoding, and never less than 1; in
//! particular an overlong or out-of-range encoding surfaces as a run of
//! 1-byte errors.

use vstd::prelude::*;
use vstd::utf8::*;

verus! {

/// True when `b` can lead a well-formed 2-byte encoding (`0xC0` and `0xC1`
/// would only lead overlong encodings and are excluded).
pub open spec fn is_lead2(b: u8) -> bool {
    0xC2 <= b <= 0xDF
}

/// True when `b` can lead a 3-byte encoding.
pub open spec fn is_lead3(b: u8) -> bool {
    0xE0 <= b <= 0xEF
}

/// True when `b` can lead a well-formed 4-byte encoding (`0xF5` to `0xF7`
/// would only lead encodings above the last Unicode scalar and are excluded).
pub open spec fn is_lead4(b: u8) -> bool {
    0xF0 <= b <= 0xF4
}

/// True when `b1` may follow the 3- or 4-byte leading byte `b0`: the usual
/// continuation range, tightened for the leading bytes whose full range would
/// admit an overlong encoding (`0xE0`, `0xF0`), a surrogate (`0xED`) or a
/// value beyond the last scalar (`0xF4`).
pub open spec fn second_byte_ok(b0: u8, b1: u8) -> bool {
    if b0 == 0xE0 {
        0xA0 <= b1 <= 0xBF
    } else if b0 == 0xED {
        0x80 <= b1 <= 0x9F
    } else if is_lead3(b0) {
        is_continuation_byte(b1)
    } else if b0 == 0xF0 {
        0x90 <= b1 <= 0xBF
    } else if b0 == 0xF4 {
        0x80 <= b1 <= 0x8F
    } else if is_lead4(b0) {
        is_continuation_byte(b1)
    } else {
        false
    }
}

/// Length of the well-formed scalar encoding at the front of `s`, or 0 when
/// the front is not a well-formed encoding. This is the byte-level
/// counterpart of [`valid_first_scalar`]; the two are related by
/// [`lemma_front_scalar_len`].
pub open spec fn front_scalar_len(s: Seq<u8>) -> int {
    if s.len() >= 1 && s[0] < 0x80 {
        1
    } else if s.len() >= 2 && is_lead2(s[0]) && is_continuation_byte(s[1]) {
        2
    } else if s.len() >= 3 && is_lead3(s[0]) && second_byte_ok(s[0], s[1])
        && is_continuation_byte(s[2]) {
        3
    } else if s.len() >= 4 && is_lead4(s[0]) && second_byte_ok(s[0], s[1])
        && is_continuation_byte(s[2]) && is_continuation_byte(s[3]) {
        4
    } else {
        0
    }
}

/// True when the whole of `s` is a truncated encoding: a nonempty proper
/// prefix of some well-formed scalar encoding, which further bytes could
/// still complete.
pub open spec fn utf8_needs_more(s: Seq<u8>) -> bool {
    ||| (s.len() == 1 && (is_lead2(s[0]) || is_lead3(s[0]) || is_lead4(s[0])))
    ||| (s.len() == 2 && (is_lead3(s[0]) || is_lead4(s[0])) && second_byte_ok(s[0], s[1]))
    ||| (s.len() == 3 && is_lead4(s[0]) && second_byte_ok(s[0], s[1]) && is_continuation_byte(
        s[2],
    ))
}

/// True when the front of `s` is definitely malformed: it neither begins
/// with a well-formed scalar encoding nor is, as a whole, a truncated one.
/// No extension of `s` can change this ([`lemma_front_invalid_extend`]).
pub open spec fn utf8_front_invalid(s: Seq<u8>) -> bool {
    &&& s.len() > 0
    &&& !valid_first_scalar(s)
    &&& !utf8_needs_more(s)
}

/// The byte length attributed to the malformed unit at the front of `s`: the
/// longest prefix that could begin a well-formed encoding, and at least 1.
/// Meaningful when [`utf8_front_invalid`] holds.
pub open spec fn utf8_error_len(s: Seq<u8>) -> int {
    if s.len() >= 2 && is_lead3(s[0]) && second_byte_ok(s[0], s[1]) {
        2
    } else if s.len() >= 2 && is_lead4(s[0]) && second_byte_ok(s[0], s[1]) {
        if s.len() >= 3 && is_continuation_byte(s[2]) {
            3
        } else {
            2
        }
    } else {
        1
    }
}

/// The codepoint of a 2-byte encoding lies below 0x800; it reaches 0x80
/// exactly when the leading byte is at least 0xC2.
proof fn lemma_width2_range(b0: u8, b1: u8)
    requires
        0xC0 <= b0 <= 0xDF,
        0x80 <= b1 <= 0xBF,
    ensures
        codepoint_width_2(b0, b1) < 0x800,
        b0 >= 0xC2 ==> codepoint_width_2(b0, b1) >= 0x80,
        b0 <= 0xC1 ==> codepoint_width_2(b0, b1) < 0x80,
{
    assert((((b0 & 0x1F) as u32) << 6 | ((b1 & 0x3F) as u32)) < 0x800 && (b0 >= 0xC2 ==> (((b0
        & 0x1F) as u32) << 6 | ((b1 & 0x3F) as u32)) >= 0x80) && (b0 <= 0xC1 ==> (((b0
        & 0x1F) as u32) << 6 | ((b1 & 0x3F) as u32)) < 0x80)) by (bit_vector)
        requires
            0xC0 <= b0 <= 0xDF,
            0x80 <= b1 <= 0xBF,
    ;
}

/// Range facts for a 3-byte codepoint: the tightened second-byte ranges are
/// exactly what keeps it out of the overlong range (below 0x800) and the
/// surrogate range.
proof fn lemma_width3_range(b0: u8, b1: u8, b2: u8)
    requires
        0xE0 <= b0 <= 0xEF,
        0x80 <= b1 <= 0xBF,
        0x80 <= b2 <= 0xBF,
    ensures
        codepoint_width_3(b0, b1, b2) <= 0xFFFF,
        b0 >= 0xE1 ==> codepoint_width_3(b0, b1, b2) >= 0x1000,
        b0 == 0xE0 && b1 >= 0xA0 ==> codepoint_width_3(b0, b1, b2) >= 0x800,
        b0 == 0xE0 && b1 < 0xA0 ==> codepoint_width_3(b0, b1, b2) < 0x800,
        b0 == 0xED && b1 <= 0x9F ==> codepoint_width_3(b0, b1, b2) <= 0xD7FF,
        b0 == 0xED && b1 > 0x9F ==> 0xD800 <= codepoint_width_3(b0, b1, b2) <= 0xDFFF,
        b0 != 0xED ==> !(0xD800 <= codepoint_width_3(b0, b1, b2) <= 0xDFFF),
{
    let c = (((b0 & 0x0F) as u32) << 12) | (((b1 & 0x3F) as u32) << 6) | ((b2 & 0x3F) as u32);
    assert(c == codepoint_width_3(b0, b1, b2));
    assert(c <= 0xFFFF && (b0 >= 0xE1 ==> c >= 0x1000) && (b0 == 0xE0 && b1 >= 0xA0 ==> c
        >= 0x800) && (b0 == 0xE0 && b1 < 0xA0 ==> c < 0x800) && (b0 == 0xED && b1 <= 0x9F ==> c
        <= 0xD7FF) && (b0 == 0xED && b1 > 0x9F ==> 0xD800 <= c <= 0xDFFF) && (b0 != 0xED ==> !(
    0xD800 <= c <= 0xDFFF))) by (bit_vector)
        requires
            0xE0 <= b0 <= 0xEF,
            0x80 <= b1 <= 0xBF,
            0x80 <= b2 <= 0xBF,
            c == (((b0 & 0x0F) as u32) << 12) | (((b1 & 0x3F) as u32) << 6) | ((b2 & 0x3F) as u32),
    ;
}

/// Range facts for a 4-byte codepoint: the tightened second-byte ranges are
/// exactly what keeps it between 0x10000 and the last scalar 0x10FFFF.
proof fn lemma_width4_range(b0: u8, b1: u8, b2: u8, b3: u8)
    requires
        0xF0 <= b0 <= 0xF7,
        0x80 <= b1 <= 0xBF,
        0x80 <= b2 <= 0xBF,
        0x80 <= b3 <= 0xBF,
    ensures
        0xF1 <= b0 <= 0xF3 ==> 0x40000 <= codepoint_width_4(b0, b1, b2, b3) <= 0xFFFFF,
        b0 == 0xF0 && b1 >= 0x90 ==> 0x10000 <= codepoint_width_4(b0, b1, b2, b3) <= 0x3FFFF,
        b0 == 0xF0 && b1 < 0x90 ==> codepoint_width_4(b0, b1, b2, b3) < 0x10000,
        b0 == 0xF4 && b1 <= 0x8F ==> 0x100000 <= codepoint_width_4(b0, b1, b2, b3) <= 0x10FFFF,
        b0 == 0xF4 && b1 > 0x8F ==> codepoint_width_4(b0, b1, b2, b3) > 0x10FFFF,
        b0 >= 0xF5 ==> codepoint_width_4(b0, b1, b2, b3) > 0x10FFFF,
{
    let c = (((b0 & 0x07) as u32) << 18) | (((b1 & 0x3F) as u32) << 12) | (((b2
        & 0x3F) as u32) << 6) | ((b3 & 0x3F) as u32);
    assert(c == codepoint_width_4(b0, b1, b2, b3));
    assert((0xF1 <= b0 <= 0xF3 ==> 0x40000 <= c <= 0xFFFFF) && (b0 == 0xF0 && b1 >= 0x90 ==> 0x10000
        <= c <= 0x3FFFF) && (b0 == 0xF0 && b1 < 0x90 ==> c < 0x10000) && (b0 == 0xF4 && b1 <= 0x8F
        ==> 0x100000 <= c <= 0x10FFFF) && (b0 == 0xF4 && b1 > 0x8F ==> c > 0x10FFFF) && (b0 >= 0xF5
        ==> c > 0x10FFFF)) by (bit_vector)
        requires
            0xF0 <= b0 <= 0xF7,
            0x80 <= b1 <= 0xBF,
            0x80 <= b2 <= 0xBF,
            0x80 <= b3 <= 0xBF,
            c == (((b0 & 0x07) as u32) << 18) | (((b1 & 0x3F) as u32) << 12) | (((b2
                & 0x3F) as u32) << 6) | ((b3 & 0x3F) as u32),
    ;
}

/// The codepoint of a 1-byte encoding is the byte itself.
proof fn lemma_width1_value(b0: u8)
    requires
        b0 < 0x80,
    ensures
        codepoint_width_1(b0) == b0 as u32,
{
    assert((b0 & 0x7F) as u32 == b0 as u32) by (bit_vector)
        requires
            b0 < 0x80,
    ;
}

/// Characterization of [`valid_first_scalar`] by byte ranges: the front of
/// `s` is a well-formed scalar encoding exactly when [`front_scalar_len`] is
/// positive, in which case it gives the encoding's length.
pub proof fn lemma_front_scalar_len(s: Seq<u8>)
    requires
        s.len() > 0,
    ensures
        front_scalar_len(s) > 0 <==> valid_first_scalar(s),
        front_scalar_len(s) > 0 ==> front_scalar_len(s) == length_of_first_scalar(s),
{
    let b0 = s[0];
    if b0 < 0x80 {
        lemma_width1_value(b0);
    } else if 0xC0 <= b0 <= 0xDF {
        if s.len() >= 2 && is_continuation_byte(s[1]) {
            lemma_width2_range(b0, s[1]);
        }
    } else if 0xE0 <= b0 <= 0xEF {
        if s.len() >= 3 && is_continuation_byte(s[1]) && is_continuation_byte(s[2]) {
            lemma_width3_range(b0, s[1], s[2]);
        }
    } else if 0xF0 <= b0 <= 0xF7 {
        if s.len() >= 4 && is_continuation_byte(s[1]) && is_continuation_byte(s[2])
            && is_continuation_byte(s[3]) {
            lemma_width4_range(b0, s[1], s[2], s[3]);
        }
    }
}

/// Classification of the front of a byte window.
pub enum Front {
    /// A well-formed scalar encoding of `len` bytes starts the window.
    Scalar { len: usize },
    /// The whole window is a truncated encoding; more bytes are needed.
    NeedsMore,
    /// A definitely malformed unit of `len` bytes starts the window.
    Bad { len: usize },
}

fn cont_ok(b: u8) -> (r: bool)
    ensures
        r == is_continuation_byte(b),
{
    0x80 <= b && b <= 0xBF
}

fn second_ok(b0: u8, b1: u8) -> (r: bool)
    ensures
        r == second_byte_ok(b0, b1),
{
    if b0 == 0xE0 {
        0xA0 <= b1 && b1 <= 0xBF
    } else if b0 == 0xED {
        0x80 <= b1 && b1 <= 0x9F
    } else if 0xE0 <= b0 && b0 <= 0xEF {
        0x80 <= b1 && b1 <= 0xBF
    } else if b0 == 0xF0 {
        0x90 <= b1 && b1 <= 0xBF
    } else if b0 == 0xF4 {
        0x80 <= b1 && b1 <= 0x8F
    } else if 0xF0 <= b0 && b0 <= 0xF4 {
        0x80 <= b1 && b1 <= 0xBF
    } else {
        false
    }
}

/// Classifies the front of the window `buf[from..to]` as a well-formed
/// scalar encoding, a truncated encoding, or a definitely malformed unit
/// with its attributed byte length.
pub fn classify_front(buf: &Vec<u8>, from: usize, to: usize) -> (r: Front)
    requires
        from < to <= buf@.len(),
    ensures
        ({
            let s = buf@.subrange(from as int, to as int);
            match r {
                Front::Scalar { len } => {
                    &&& valid_first_scalar(s)
                    &&& len == length_of_first_scalar(s)
                    &&& from + len <= to
                },
                Front::NeedsMore => utf8_needs_more(s),
                Front::Bad { len } => {
                    &&& utf8_front_invalid(s)
                    &&& len == utf8_error_len(s)
                    &&& 1 <= len <= 3
                    &&& from + len <= to
                },
            }
        }),
{
    let ghost s = buf@.subrange(from as int, to as int);
    proof {
        lemma_front_scalar_len(s);
    }
    let avail = to - from;
    let b0 = buf[from];
    if b0 < 0x80 {
        Front::Scalar { len: 1 }
    } else if b0 < 0xC2 {
        Front::Bad { len: 1 }
    } else if b0 < 0xE0 {
        if avail < 2 {
            Front::NeedsMore
        } else if cont_ok(buf[from + 1]) {
            Front::Scalar { len: 2 }
        } else {
            Front::Bad { len: 1 }
        }
    } else if b0 < 0xF0 {
        if avail < 2 {
            Front::NeedsMore
        } else if !second_ok(b0, buf[from + 1]) {
            Front::Bad { len: 1 }
        } else if avail < 3 {
            Front::NeedsMore
        } else if cont_ok(buf[from + 2]) {
            Front::Scalar { len: 3 }
        } else {
            Front::Bad { len: 2 }
        }
    } else if b0 < 0xF5 {
        if avail < 2 {
            Front::NeedsMore
        } else if !second_ok(b0, buf[from + 1]) {
            Front::Bad { len: 1 }
        } else if avail < 3 {
            Front::NeedsMore
        } else if !cont_ok(buf[from + 2]) {
            Front::Bad { len: 2 }
        } else if avail < 4 {
            Front::NeedsMore
        } else if cont_ok(buf[from + 3]) {
            Front::Scalar { len: 4 }
        } else {
            Front::Bad { len: 3 }
        }
    } else {
        Front::Bad { len: 1 }
    }
}

/// Relies on `char::from_u32` of core: it returns `Some` exactly for the
/// Unicode scalar values (at most 0x10FFFF and not a surrogate), and the
/// returned `char` has the given value.
pub assume_specification[ char::from_u32 ](i: u32) -> (r: Option<char>)
    ensures
        r is Some <==> is_scalar(i),
        r matches Some(c) ==> c as u32 == i,
;

/// Decodes the well-formed scalar encoding `buf[from..from + len]` into its
/// character.
pub fn decode_front(buf: &Vec<u8>, from: usize, len: usize) -> (c: char)
    requires
        from + len <= buf@.len(),
        valid_first_scalar(buf@.subrange(from as int, from + len)),
        len == length_of_first_scalar(buf@.subrange(from as int, from + len)),
    ensures
        c as u32 == decode_first_scalar(buf@.subrange(from as int, from + len)),
        encode_scalar(c as u32) == buf@.subrange(from as int, from + len),
{
    let ghost s = buf@.subrange(from as int, from + len as int);
    let total = buf.len();
    let b0 = buf[from];
    let code: u32 = if len == 1 {
        (b0 & 0x7F) as u32
    } else if len == 2 {
        let b1 = buf[from + 1];
        (((b0 & 0x1F) as u32) << 6) | ((b1 & 0x3F) as u32)
    } else if len == 3 {
        let b1 = buf[from + 1];
        let b2 = buf[from + 2];
        (((b0 & 0x0F) as u32) << 12) | (((b1 & 0x3F) as u32) << 6) | ((b2 & 0x3F) as u32)
    } else {
        let b1 = buf[from + 1];
        let b2 = buf[from + 2];
        let b3 = buf[from + 3];
        (((b0 & 0x07) as u32) << 18) | (((b1 & 0x3F) as u32) << 12) | (((b2 & 0x3F) as u32) << 6)
            | ((b3 & 0x3F) as u32)
    };
    proof {
        assert(code == decode_first_scalar(s));
        if len == 1 {
            lemma_width1_value(b0);
        } else if len == 2 {
            lemma_width2_range(s[0], s[1]);
        } else if len == 3 {
            lemma_width3_range(s[0], s[1], s[2]);
        }
        assert(is_scalar(code));
    }
    let c = char::from_u32(code).unwrap();
    proof {
        assert(valid_utf8(s)) by {
            assert(pop_first_scalar(s) =~= Seq::<u8>::empty());
            reveal_with_fuel(valid_utf8, 2);
        }
        decode_utf8_first_scalar(s);
        assert(take_first_scalar(s) =~= s);
    }
    c
}

/// How a scan of a whole window ended, past its longest well-formed prefix.
pub enum ScanTail {
    /// The whole window is well-formed.
    Done,
    /// The window ends in a truncated encoding; more bytes could complete
    /// it.
    NeedsMore,
    /// A definitely malformed unit of `len` bytes follows the well-formed
    /// prefix.
    Bad { len: usize },
}

/// Result of scanning a window: the length of its longest well-formed UTF-8
/// prefix made of whole scalar encodings, and what follows that prefix.
pub struct ScanReport {
    pub valid_len: usize,
    pub tail: ScanTail,
}

/// Scans the window `buf[from..to]` for its longest well-formed UTF-8 prefix
/// and classifies whatever follows it.
pub fn scan_window(buf: &Vec<u8>, from: usize, to: usize) -> (r: ScanReport)
    requires
        from <= to <= buf@.len(),
    ensures
        ({
            let s = buf@.subrange(from as int, to as int);
            &&& r.valid_len <= to - from
            &&& valid_utf8(s.take(r.valid_len as int))
            &&& (r.tail is Done <==> r.valid_len == to - from)
            &&& (r.tail is NeedsMore ==> utf8_needs_more(s.skip(r.valid_len as int)))
            &&& (r.tail matches ScanTail::Bad { len } ==> {
                &&& utf8_front_invalid(s.skip(r.valid_len as int))
                &&& len == utf8_error_len(s.skip(r.valid_len as int))
                &&& 1 <= len <= 3
                &&& from + r.valid_len + len <= to
            })
        }),
{
    let ghost s = buf@.subrange(from as int, to as int);
    let mut i = from;
    loop
        invariant
            from <= i <= to <= buf@.len(),
            s == buf@.subrange(from as int, to as int),
            valid_utf8(s.take(i - from)),
        decreases to - i,
    {
        if i == to {
            return ScanReport { valid_len: to - from, tail: ScanTail::Done };
        }
        proof {
            assert(s.skip(i - from) =~= buf@.subrange(i as int, to as int));
        }
        match classify_front(buf, i, to) {
            Front::Scalar { len } => {
                proof {
                    let w = s.skip(i - from);
                    assert(valid_utf8(s.take(i - from) + w.take(len as int))) by {
                        assert(valid_utf8(w.take(len as int))) by {
                            lemma_valid_first_take(w);
                        }
                        valid_utf8_concat(s.take(i - from), w.take(len as int));
                    }
                    assert(s.take(i - from + len) =~= s.take(i - from) + w.take(len as int));
                }
                i = i + len;
            },
            Front::NeedsMore => {
                return ScanReport { valid_len: i - from, tail: ScanTail::NeedsMore };
            },
            Front::Bad { len } => {
                return ScanReport { valid_len: i - from, tail: ScanTail::Bad { len } };
            },
        }
    }
}

/// The bytes of the scalar encoding at the front of `s` are on their own a
/// well-formed UTF-8 sequence.
pub proof fn lemma_valid_first_take(s: Seq<u8>)
    requires
        valid_first_scalar(s),
    ensures
        valid_utf8(s.take(length_of_first_scalar(s))),
        s.take(length_of_first_scalar(s)) == take_first_scalar(s),
        valid_first_scalar(s.take(length_of_first_scalar(s))),
        length_of_first_scalar(s.take(length_of_first_scalar(s))) == length_of_first_scalar(s),
        decode_first_scalar(s.take(length_of_first_scalar(s))) == decode_first_scalar(s),
{
    let n = length_of_first_scalar(s);
    let h = s.take(n);
    assert(h =~= take_first_scalar(s));
    assert(forall|i: int| 0 <= i < n ==> h[i] == s[i]);
    assert(valid_first_scalar(h));
    assert(length_of_first_scalar(h) == n);
    assert(pop_first_scalar(h) =~= Seq::<u8>::empty());
    reveal_with_fuel(valid_utf8, 2);
}

/// The byte length of the well-formed scalar encoding at the front of the
/// window `buf[from..to]`.
pub fn scalar_len_at(buf: &Vec<u8>, from: usize, to: usize) -> (n: usize)
    requires
        from < to <= buf@.len(),
        valid_first_scalar(buf@.subrange(from as int, to as int)),
    ensures
        n == length_of_first_scalar(buf@.subrange(from as int, to as int)),
        from + n <= to,
{
    let ghost s = buf@.subrange(from as int, to as int);
    match classify_front(buf, from, to) {
        Front::Scalar { len } => len,
        Front::NeedsMore => {
            proof {
                lemma_front_mutex(s);
            }
            vstd::pervasive::unreached()
        },
        Front::Bad { .. } => vstd::pervasive::unreached(),
    }
}

/// Law: the front of a window is never both a well-formed scalar encoding
/// and a truncated one; "have a character" and "need more bytes" are
/// mutually exclusive verdicts.
pub proof fn lemma_front_mutex(s: Seq<u8>)
    requires
        valid_first_scalar(s),
    ensures
        !utf8_needs_more(s),
{
    lemma_front_scalar_len(s);
}

/// Law: a well-formed scalar encoding at the front of a window stays
/// exactly as it is when more bytes arrive: the same length, the same
/// scalar. Delivering the same stream in different chunks cannot change a
/// decoded character.
pub proof fn lemma_valid_first_extend(s: Seq<u8>, t: Seq<u8>)
    requires
        valid_first_scalar(s),
    ensures
        valid_first_scalar(s + t),
        length_of_first_scalar(s + t) == length_of_first_scalar(s),
        decode_first_scalar(s + t) == decode_first_scalar(s),
{
    assert(forall|i: int| 0 <= i < s.len() ==> (s + t)[i] == s[i]);
}

/// Law: a definitely malformed front stays definitely malformed, with the
/// same attributed byte length, no matter what bytes arrive later. A
/// malformed verdict never has to be revised.
pub proof fn lemma_front_invalid_extend(s: Seq<u8>, t: Seq<u8>)
    requires
        utf8_front_invalid(s),
    ensures
        utf8_front_invalid(s + t),
        utf8_error_len(s + t) == utf8_error_len(s),
{
    assert(forall|i: int| 0 <= i < s.len() ==> (s + t)[i] == s[i]);
    lemma_front_scalar_len(s);
    let u = s + t;
    let b0 = s[0];
    if b0 < 0x80 {
        assert(front_scalar_len(s) == 1);
    } else if is_lead2(b0) {
        assert(s.len() >= 2 && !is_continuation_byte(s[1]));
        assert(front_scalar_len(u) == 0);
    } else if is_lead3(b0) {
        if s.len() >= 2 && second_byte_ok(b0, s[1]) {
            assert(s.len() >= 3 && !is_continuation_byte(s[2]));
        }
        assert(front_scalar_len(u) == 0);
    } else if is_lead4(b0) {
        if s.len() >= 2 && second_byte_ok(b0, s[1]) {
            if s.len() >= 3 && is_continuation_byte(s[2]) {
                assert(s.len() >= 4 && !is_continuation_byte(s[3]));
            }
        }
        assert(front_scalar_len(u) == 0);
    } else {
        assert(front_scalar_len(u) == 0);
    }
    lemma_front_scalar_len(u);
}

/// Acceptable continuation bytes completing the truncated encoding `s` into
/// a well-formed one.
spec fn completion_bytes(s: Seq<u8>) -> Seq<u8> {
    let b0 = s[0];
    let w: u8 = if b0 == 0xE0 {
        0xA0
    } else if b0 == 0xF0 {
        0x90
    } else {
        0x80
    };
    if s.len() == 1 {
        if is_lead2(b0) {
            seq![0x80u8]
        } else if is_lead3(b0) {
            seq![w, 0x80u8]
        } else {
            seq![w, 0x80u8, 0x80u8]
        }
    } else if s.len() == 2 {
        if is_lead3(b0) {
            seq![0x80u8]
        } else {
            seq![0x80u8, 0x80u8]
        }
    } else {
        seq![0x80u8]
    }
}

/// Law: a truncated front really can still become a well-formed encoding:
/// some further bytes extend it to a strictly longer well-formed scalar
/// encoding. This is why a truncated front must never be reported as
/// malformed while the stream may still deliver more bytes.
pub proof fn lemma_needs_more_completable(s: Seq<u8>)
    requires
        utf8_needs_more(s),
    ensures
        exists|t: Seq<u8>|
            valid_first_scalar(s + t) && s.len() < length_of_first_scalar(s + t),
{
    let t = completion_bytes(s);
    let u = s + t;
    assert(forall|i: int| 0 <= i < s.len() ==> u[i] == s[i]);
    assert(forall|i: int| 0 <= i < t.len() ==> u[s.len() + i] == t[i]);
    assert(front_scalar_len(u) > 0);
    lemma_front_scalar_len(u);
    assert(valid_first_scalar(s + t) && s.len() < length_of_first_scalar(s + t));
}

/// Law: every strictly shorter nonempty prefix of a well-formed scalar
/// encoding is truncated, not malformed. A well-formed encoding split
/// across two deliveries is therefore waited for, never misreported.
pub proof fn lemma_scalar_prefix_needs_more(s: Seq<u8>, k: int)
    requires
        valid_first_scalar(s),
        0 < k < length_of_first_scalar(s),
    ensures
        utf8_needs_more(s.take(k)),
{
    lemma_front_scalar_len(s);
    let p = s.take(k);
    assert(forall|i: int| 0 <= i < k ==> p[i] == s[i]);
}

/// Law: decoding a well-formed UTF-8 byte sequence and re-encoding the
/// resulting characters reproduces the original bytes exactly.
pub proof fn lemma_decode_then_encode(bytes: Seq<u8>)
    requires
        valid_utf8(bytes),
    ensures
        encode_utf8(decode_utf8(bytes)) == bytes,
{
    decode_utf8_encode_utf8(bytes);
}

/// Law: the encoding of any character sequence is well-formed UTF-8 and
/// decodes back to the original characters exactly.
pub proof fn lemma_encode_then_decode(chars: Seq<char>)
    ensures
        valid_utf8(encode_utf8(chars)),
        decode_utf8(encode_utf8(chars)) == chars,
{
    encode_utf8_valid_utf8(chars);
    encode_utf8_decode_utf8(chars);
}

} // verus!
