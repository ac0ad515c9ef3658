//! The buffered append-writer behind the processed-log and the error-log: the
//! pure buffering state machine. Callers hand it bytes; it hands back, in
//! order, exactly the chunks that are due on disk, so that the concatenation
//! of everything flushed, followed by what is still pending, always equals
//! the concatenation of everything written.

use vstd::prelude::*;

verus! {

/// Pending bytes of one append-only log, bounded by a flush threshold.
pub struct DiskBuffer {
    /// Bytes accepted but not yet handed out for the disk.
    pub data: Vec<u8>,
    /// The flush threshold: `write` never leaves more than this pending.
    pub capacity: usize,
}

/// Appends a byte slice to a vector.
fn append_slice(v: &mut Vec<u8>, bytes: &[u8])
    requires
        old(v)@.len() + bytes@.len() <= usize::MAX,
    ensures
        final(v)@ == old(v)@ + bytes@,
{
    let mut i: usize = 0;
    while i < bytes.len()
        invariant
            i <= bytes@.len(),
            v@ == old(v)@ + bytes@.take(i as int),
            old(v)@.len() + bytes@.len() <= usize::MAX,
        decreases bytes@.len() - i,
    {
        v.push(bytes[i]);
        i = i + 1;
        proof {
            assert(bytes@.take(i as int) =~= bytes@.take(i - 1).push(bytes@[i - 1]));
            assert(v@ =~= old(v)@ + bytes@.take(i as int));
        }
    }
    proof {
        assert(bytes@.take(bytes@.len() as int) =~= bytes@);
    }
}

impl DiskBuffer {
    /// No more than the threshold is ever left pending.
    pub open spec fn wf(self) -> bool {
        self.data@.len() <= self.capacity
    }

    /// An empty buffer with the given flush threshold.
    pub fn new(capacity: usize) -> (r: DiskBuffer)
        ensures
            r.wf(),
            r.data@ == Seq::<u8>::empty(),
            r.capacity == capacity,
    {
        DiskBuffer { data: Vec::new(), capacity }
    }

    /// Accept bytes. If they still fit under the threshold they are buffered
    /// and nothing is due on disk; otherwise everything pending, followed by
    /// the new bytes, is handed back to be written out, in order.
    pub fn write(&mut self, bytes: &[u8]) -> (r: Option<Vec<u8>>)
        requires
            old(self).wf(),
            old(self).data@.len() + bytes@.len() <= usize::MAX,
        ensures
            final(self).wf(),
            final(self).capacity == old(self).capacity,
            r is None <==> old(self).data@.len() + bytes@.len() <= old(self).capacity,
            r is None ==> final(self).data@ == old(self).data@ + bytes@,
            r matches Some(out) ==> out@ == old(self).data@ + bytes@ && final(self).data@
                == Seq::<u8>::empty(),
    {
        if bytes.len() <= self.capacity - self.data.len() {
            append_slice(&mut self.data, bytes);
            None
        } else {
            let mut flushed: Vec<u8> = Vec::new();
            core::mem::swap(&mut flushed, &mut self.data);
            append_slice(&mut flushed, bytes);
            Some(flushed)
        }
    }

    /// Hand back everything pending; the buffer is empty afterwards.
    pub fn flush(&mut self) -> (r: Vec<u8>)
        ensures
            final(self).wf(),
            final(self).capacity == old(self).capacity,
            r@ == old(self).data@,
            final(self).data@ == Seq::<u8>::empty(),
    {
        let mut flushed: Vec<u8> = Vec::new();
        core::mem::swap(&mut flushed, &mut self.data);
        flushed
    }
}

} // verus!
