use vstd::prelude::*;

verus! {

/// Wraps a byte sink and tracks the total number of bytes written to it.
pub struct CountingWriter<W> {
    pub inner: W,
    pub bytes_written: u64,
}

impl<W> CountingWriter<W> {
    pub fn new(inner: W) -> (r: Self)
        ensures
            r.inner == inner,
            r.bytes_written == 0,
    {
        Self { inner, bytes_written: 0 }
    }

    pub fn bytes_written(&self) -> (r: u64)
        ensures
            r == self.bytes_written,
    {
        self.bytes_written
    }

    pub fn into_inner(self) -> (r: W)
        ensures
            r == self.inner,
    {
        self.inner
    }
}

impl CountingWriter<Vec<u8>> {
    /// Appends `buf` to the inner buffer and adds its length to the count.
    pub fn write(&mut self, buf: &[u8])
        requires
            old(self).bytes_written + buf@.len() <= u64::MAX,
        ensures
            final(self).inner@ == old(self).inner@ + buf@,
            final(self).bytes_written == old(self).bytes_written + buf@.len(),
    {
        let mut i: usize = 0;
        while i < buf.len()
            invariant
                i <= buf@.len(),
                self.inner@ =~= old(self).inner@ + buf@.take(i as int),
                self.bytes_written == old(self).bytes_written,
            decreases buf@.len() - i,
        {
            self.inner.push(buf[i]);
            i = i + 1;
            assert(self.inner@ =~= old(self).inner@ + buf@.take(i as int));
        }
        assert(buf@.take(buf@.len() as int) =~= buf@);
        self.bytes_written = self.bytes_written + buf.len() as u64;
    }
}

} // verus!
