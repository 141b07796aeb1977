use vstd::prelude::*;
use crate::gif_decoder::Rewindable;
use crate::gif_error::Error;

verus! {

/// A pull-based byte stream.  The spec function `remaining` gives the bytes
/// the source will still yield, oldest first; `next` consumes the head.
pub trait ByteSource: Sized {
    /// The bytes the source will still yield, in order.
    spec fn remaining(&self) -> Seq<u8>;

    /// Yields the next byte, or `None` once the source is exhausted.
    fn next(&mut self) -> (r: Option<u8>)
        ensures
            match r {
                Some(b) => old(self).remaining().len() > 0 && b == old(self).remaining()[0]
                    && final(self).remaining() == old(self).remaining().drop_first(),
                None => old(self).remaining().len() == 0
                    && final(self).remaining() == old(self).remaining(),
            },
    ;
}

/// An in-memory byte source over an owned buffer, with a cursor.
pub struct VecByteSource {
    pub data: Vec<u8>,
    pub pos: usize,
}

impl VecByteSource {
    /// Wraps a buffer; the source will yield all of its bytes in order.
    pub fn new(data: Vec<u8>) -> (s: Self)
        ensures
            s.data@ == data@,
            s.pos == 0,
            s.remaining() == data@,
    {
        let s = VecByteSource { data, pos: 0 };
        proof {
            assert(s.remaining() =~= s.data@);
        }
        s
    }
}

impl ByteSource for VecByteSource {
    open spec fn remaining(&self) -> Seq<u8> {
        if self.pos as int <= self.data@.len() {
            self.data@.skip(self.pos as int)
        } else {
            Seq::empty()
        }
    }

    fn next(&mut self) -> (r: Option<u8>) {
        if self.pos < self.data.len() {
            let b = self.data[self.pos];
            self.pos = self.pos + 1;
            proof {
                assert(self.remaining() =~= old(self).remaining().drop_first());
            }
            Some(b)
        } else {
            None
        }
    }
}

impl Rewindable for VecByteSource {
    open spec fn origin(&self) -> Seq<u8> {
        self.data@
    }

    fn rewind(&mut self) -> (r: Result<(), Error>) {
        self.pos = 0;
        proof {
            assert(self.remaining() =~= self.data@);
        }
        Ok(())
    }
}

} // verus!
