//! A queue of bytes that have been read from a stream and not yet used.

use vstd::prelude::*;

verus! {

/// The bytes that arrived and are still waiting, oldest first, and whether
/// the stream has ended.
pub struct Inbox {
    pending: Vec<u8>,
    closed: bool,
}

/// What an `Inbox` holds.
pub struct InboxView {
    pub pending: Seq<u8>,
    pub closed: bool,
}

impl View for Inbox {
    type V = InboxView;

    closed spec fn view(&self) -> InboxView {
        InboxView { pending: self.pending@, closed: self.closed }
    }
}

/// Appends `bytes` to `to`.
pub fn append_bytes(to: &mut Vec<u8>, bytes: &[u8])
    ensures
        final(to)@ == old(to)@ + bytes@,
{
    let mut i: usize = 0;
    assert(to@ =~= old(to)@ + bytes@.subrange(0, 0));
    while i < bytes.len()
        invariant
            i <= bytes@.len(),
            to@ == old(to)@ + bytes@.subrange(0, i as int),
        decreases bytes.len() - i,
    {
        to.push(bytes[i]);
        assert(to@ =~= old(to)@ + bytes@.subrange(0, i + 1));
        i += 1;
    }
    assert(bytes@.subrange(0, i as int) =~= bytes@);
}

impl Inbox {
    /// An empty queue on an open stream.
    pub fn new() -> (r: Self)
        ensures
            r@ == (InboxView { pending: Seq::empty(), closed: false }),
    {
        Inbox { pending: Vec::new(), closed: false }
    }

    /// Adds what one read returned behind the bytes that are waiting.
    pub fn feed(&mut self, bytes: &[u8])
        ensures
            final(self)@ == (InboxView { pending: old(self)@.pending + bytes@, ..old(self)@ }),
    {
        append_bytes(&mut self.pending, bytes);
    }

    /// Records that the stream has ended.
    pub fn close(&mut self)
        ensures
            final(self)@ == (InboxView { closed: true, ..old(self)@ }),
    {
        self.closed = true;
    }

    /// Whether the stream has ended.
    pub fn is_closed(&self) -> (r: bool)
        ensures
            r == self@.closed,
    {
        self.closed
    }

    /// The number of bytes that are waiting.
    pub fn len(&self) -> (r: usize)
        ensures
            r == self@.pending.len(),
    {
        self.pending.len()
    }

    /// The bytes that are waiting.
    pub fn bytes(&self) -> (r: &[u8])
        ensures
            r@ == self@.pending,
    {
        self.pending.as_slice()
    }

    /// Takes the oldest `n` bytes out of the queue.
    pub(crate) fn take(&mut self, n: usize) -> (r: Vec<u8>)
        requires
            n <= old(self)@.pending.len(),
        ensures
            r@ == old(self)@.pending.subrange(0, n as int),
            final(self)@ == (InboxView {
                pending: old(self)@.pending.subrange(n as int, old(self)@.pending.len() as int),
                ..old(self)@
            }),
    {
        let rest = self.pending.split_off(n);
        let mut taken = rest;
        core::mem::swap(&mut taken, &mut self.pending);
        taken
    }
}

} // verus!
