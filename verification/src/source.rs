use vstd::prelude::*;

verus! {

/// A byte source for a [`crate::Reader`]: one operation that attempts to hand
/// over up to `max` bytes, returning the bytes actually available (possibly
/// none) or the source's own I/O error.
///
/// Returning an empty vector is meaningful: it signals temporary exhaustion
/// or true end of stream, disambiguated by the reader's policy.
pub trait ByteSource {
    /// Attempts to produce up to `max` bytes from the source.
    fn read_bytes(&mut self, max: usize) -> (r: Result<Vec<u8>, std::io::Error>)
        ensures
            r matches Ok(v) ==> v@.len() <= max,
    ;
}

/// A byte source backed by an in-memory byte vector, handed over from the
/// front in one piece.
pub struct VecSource {
    data: Vec<u8>,
    offset: usize,
}

impl VecSource {
    /// The handed-over prefix never runs past the end of the data.
    #[verifier::type_invariant]
    spec fn inv(&self) -> bool {
        self.offset <= self.data@.len()
    }

    /// The bytes not yet handed over.
    pub closed spec fn remaining(&self) -> Seq<u8> {
        self.data@.skip(self.offset as int)
    }

    /// Wraps `data` as a byte source that will hand its bytes over in order.
    pub fn new(data: Vec<u8>) -> (r: Self)
        ensures
            r.remaining() == data@,
    {
        let r = Self { data, offset: 0 };
        proof {
            assert(r.remaining() =~= r.data@);
        }
        r
    }
}

impl ByteSource for VecSource {
    /// Hands over the next `min(max, remaining)` bytes; never fails.
    fn read_bytes(&mut self, max: usize) -> (r: Result<Vec<u8>, std::io::Error>)
        ensures
            r matches Ok(v) && {
                &&& v@ == old(self).remaining().take(v@.len() as int)
                &&& final(self).remaining() == old(self).remaining().skip(v@.len() as int)
                &&& v@.len() == if max <= old(self).remaining().len() {
                    max as int
                } else {
                    old(self).remaining().len() as int
                }
            },
    {
        proof {
            use_type_invariant(&*self);
        }
        let avail = self.data.len() - self.offset;
        let n = if max <= avail {
            max
        } else {
            avail
        };
        let base = self.offset;
        let len = self.data.len();
        let mut v: Vec<u8> = Vec::new();
        let mut i: usize = 0;
        while i < n
            invariant
                i <= n,
                base + n <= len,
                len == self.data@.len(),
                base == self.offset,
                v@ == self.data@.subrange(base as int, base + i),
            decreases n - i,
        {
            v.push(self.data[base + i]);
            proof {
                assert(v@ =~= self.data@.subrange(base as int, base + i + 1));
            }
            i += 1;
        }
        let ghost pre = *self;
        self.offset += n;
        proof {
            assert(v@ =~= pre.remaining().take(n as int));
            assert(self.remaining() =~= pre.remaining().skip(n as int));
        }
        Ok(v)
    }
}

} // verus!
