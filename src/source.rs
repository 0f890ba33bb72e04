//! A byte source that hands out exactly the bytes asked for, or fails.
use crate::error::CodecError;
use vstd::prelude::*;

verus! {

/// Bytes to be read, and how many of them have been read so far.
#[derive(Debug)]
pub struct Source {
    data: Vec<u8>,
    pos: usize,
}

impl Source {
    /// All the bytes, read or not.
    pub closed spec fn bytes(&self) -> Seq<u8> {
        self.data@
    }

    /// How many bytes have been read.
    pub closed spec fn pos(&self) -> nat {
        self.pos as nat
    }

    #[verifier::type_invariant]
    closed spec fn inv(&self) -> bool {
        self.pos <= self.data@.len()
    }

    /// A source over `data`, with nothing read yet.
    pub fn new(data: Vec<u8>) -> (r: Source)
        ensures
            r.bytes() == data@,
            r.pos() == 0,
    {
        Source { data, pos: 0 }
    }

    /// How many bytes have been read.
    pub fn position(&self) -> (r: usize)
        ensures
            r == self.pos(),
    {
        self.pos
    }

    /// How many bytes are left.
    pub fn remaining(&self) -> (r: usize)
        ensures
            r == self.bytes().len() - self.pos(),
            self.pos() <= self.bytes().len(),
    {
        proof {
            use_type_invariant(self);
        }
        self.data.len() - self.pos
    }

    pub(crate) fn data(&self) -> (r: &Vec<u8>)
        ensures
            r@ == self.bytes(),
            self.pos() <= self.bytes().len(),
    {
        proof {
            use_type_invariant(self);
        }
        &self.data
    }

    pub(crate) fn advance(&mut self, n: usize)
        requires
            old(self).pos() + n <= old(self).bytes().len(),
        ensures
            final(self).bytes() == old(self).bytes(),
            final(self).pos() == old(self).pos() + n,
    {
        let len = self.data.len();
        assert(self.pos + n <= len);
        self.pos = self.pos + n;
    }

    /// Reads exactly `n` bytes. When fewer are left, fails and reads nothing.
    pub fn read_exact(&mut self, n: usize) -> (r: Result<Vec<u8>, CodecError>)
        ensures
            final(self).bytes() == old(self).bytes(),
            r is Ok <==> old(self).pos() + n <= old(self).bytes().len(),
            match r {
                Ok(b) => {
                    &&& b@ == old(self).bytes().subrange(
                        old(self).pos() as int,
                        old(self).pos() + n,
                    )
                    &&& final(self).pos() == old(self).pos() + n
                },
                Err(e) => e == CodecError::ShortRead && final(self).pos() == old(self).pos(),
            },
    {
        if self.remaining() < n {
            return Err(CodecError::ShortRead);
        }
        let mut out: Vec<u8> = Vec::new();
        let start = self.pos;
        let len = self.data.len();
        let mut i: usize = 0;
        while i < n
            invariant
                i <= n,
                len == self.data@.len(),
                start + n <= len,
                out@ == self.data@.subrange(start as int, start + i),
            decreases n - i,
        {
            out.push(self.data[start + i]);
            assert(out@ =~= self.data@.subrange(start as int, start + i + 1));
            i = i + 1;
        }
        self.pos = start + n;
        Ok(out)
    }
}

} // verus!
