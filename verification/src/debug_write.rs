//! A byte sink that keeps everything written to it, so that what the
//! process logged can be read back.
//!
//! The buffer value lives here; sharing it between writers and hooking it
//! into a logging framework happen outside.
use vstd::prelude::*;

verus! {

/// A growing byte buffer of everything written so far.
#[derive(Debug)]
pub struct DebugWrite {
    data: Vec<u8>,
}

impl DebugWrite {
    /// The bytes written so far.
    pub closed spec fn spec_data(&self) -> Seq<u8> {
        self.data@
    }

    pub fn new() -> (r: Self)
        ensures
            r.spec_data().len() == 0,
    {
        Self { data: Vec::new() }
    }

    /// Append one written chunk.  Returns how many bytes were taken:
    /// always the whole chunk.
    pub fn write_bytes(&mut self, buf: &[u8]) -> (r: usize)
        ensures
            final(self).spec_data() == old(self).spec_data() + buf@,
            r == buf@.len(),
    {
        let mut i: usize = 0;
        while i < buf.len()
            invariant
                0 <= i <= buf@.len(),
                self.data@ =~= old(self).data@ + buf@.take(i as int),
            decreases buf@.len() - i,
        {
            self.data.push(buf[i]);
            i = i + 1;
        }
        proof {
            assert(self.data@ =~= old(self).data@ + buf@);
        }
        buf.len()
    }

    /// A copy of the bytes written so far.
    pub fn get_data(&mut self) -> (r: Vec<u8>)
        ensures
            r@ == old(self).spec_data(),
            final(self).spec_data() == old(self).spec_data(),
    {
        let mut r: Vec<u8> = Vec::new();
        let mut i: usize = 0;
        while i < self.data.len()
            invariant
                0 <= i <= self.data@.len(),
                self.data@ == old(self).data@,
                r@ =~= self.data@.take(i as int),
            decreases self.data@.len() - i,
        {
            r.push(self.data[i]);
            i = i + 1;
        }
        proof {
            assert(r@ =~= self.data@);
        }
        r
    }
}

} // verus!
