//! Formatting into a fixed buffer: text is appended while it fits, and a piece that does
//! not fit is refused whole.
use vstd::prelude::*;
use vstd::string::StringSliceAdditionalSpecFns;

verus! {

/// A piece of text did not fit in what is left of the buffer.
#[derive(Copy, Clone, Debug, PartialEq, Eq, Structural)]
pub struct WriteError;

/// A buffer and how much of it is written.
pub struct SliceWriter {
    buf: Vec<u8>,
    len: usize,
}

impl SliceWriter {
    pub closed spec fn wf(&self) -> bool {
        self.len <= self.buf@.len()
    }

    /// The bytes written so far.
    pub closed spec fn written(&self) -> Seq<u8> {
        self.buf@.take(self.len as int)
    }

    /// The buffer's size.
    pub closed spec fn capacity(&self) -> nat {
        self.buf@.len()
    }

    pub fn new(buf: Vec<u8>) -> (w: Self)
        ensures
            w.wf(),
            w.written() == Seq::<u8>::empty(),
            w.capacity() == buf@.len(),
    {
        let w = SliceWriter { buf, len: 0 };
        assert(w.written() =~= Seq::<u8>::empty());
        w
    }

    pub fn len(&self) -> (n: usize)
        requires
            self.wf(),
        ensures
            n == self.written().len(),
    {
        self.len
    }

    pub fn as_bytes(&self) -> (b: &[u8])
        requires
            self.wf(),
        ensures
            b@ == self.written(),
    {
        let b = vstd::slice::slice_subrange(self.buf.as_slice(), 0, self.len);
        assert(b@ =~= self.written());
        b
    }

    /// Appends `s` when it fits in what is left; otherwise nothing changes.
    pub fn write_str(&mut self, s: &str) -> (r: Result<(), WriteError>)
        requires
            old(self).wf(),
        ensures
            final(self).wf(),
            final(self).capacity() == old(self).capacity(),
            old(self).written().len() + s.spec_bytes().len() <= old(self).capacity() ==> r is Ok
                && final(self).written() == old(self).written() + s.spec_bytes(),
            old(self).written().len() + s.spec_bytes().len() > old(self).capacity() ==> r is Err
                && final(self).written() == old(self).written(),
    {
        let bytes = s.as_bytes();
        let remain = self.buf.len() - self.len;
        if remain < bytes.len() {
            return Err(WriteError);
        }
        let ghost start = self.buf@;
        let ghost l0 = self.len;
        let mut i: usize = 0;
        while i < bytes.len()
            invariant
                self.len == l0,
                l0 <= start.len(),
                start.len() <= usize::MAX,
                start == old(self).buf@,
                l0 == old(self).len,
                self.len + bytes@.len() <= self.buf@.len(),
                self.buf@.len() == start.len(),
                i <= bytes@.len(),
                forall|k: int| 0 <= k < self.len ==> #[trigger] self.buf@[k] == start[k],
                forall|k: int| 0 <= k < i ==> #[trigger] self.buf@[self.len + k] == bytes@[k],
            decreases bytes.len() - i,
        {
            self.buf.set(self.len + i, bytes[i]);
            i = i + 1;
        }
        let ghost old_len = self.len;
        self.len = self.len + bytes.len();
        assert forall|k: int| 0 <= k < self.len implies #[trigger] self.written()[k] == (start.take(
            old_len as int,
        ) + bytes@)[k] by {
            if k >= old_len {
                let j = k - old_len;
                assert(self.buf@[old_len + j] == bytes@[j]);
            }
        }
        assert(self.written() =~= start.take(old_len as int) + bytes@);
        Ok(())
    }
}

} // verus!
