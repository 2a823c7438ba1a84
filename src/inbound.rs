//! The record of chunks a port's receive loop has appended and the
//! foreground has not yet drained.

use crate::buffer::bytes_contents;
use bytes::Bytes;
use vstd::prelude::*;

verus! {

/// What a record holding `pending` holds after `chunk` arrives.
pub open spec fn appended(pending: Seq<Seq<u8>>, chunk: Seq<u8>) -> Seq<Seq<u8>> {
    pending.push(chunk)
}

/// What a record holding `pending` holds after `arrivals` arrive one by one.
pub open spec fn appended_all(pending: Seq<Seq<u8>>, arrivals: Seq<Seq<u8>>) -> Seq<Seq<u8>>
    decreases arrivals.len(),
{
    if arrivals.len() == 0 {
        pending
    } else {
        appended_all(appended(pending, arrivals[0]), arrivals.drop_first())
    }
}

/// What draining a record holding `pending` returns, and what it holds after.
pub open spec fn drained(pending: Seq<Seq<u8>>) -> (Seq<Seq<u8>>, Seq<Seq<u8>>) {
    (pending, Seq::empty())
}

/// The contents of each chunk of `chunks`, in order.
pub open spec fn chunk_contents(chunks: Seq<Bytes>) -> Seq<Seq<u8>> {
    chunks.map_values(|b: Bytes| bytes_contents(b))
}

/// Chunks received on one port, kept in arrival order until drained.
pub struct InboundRecord {
    chunks: Vec<Bytes>,
}

impl View for InboundRecord {
    type V = Seq<Seq<u8>>;

    closed spec fn view(&self) -> Seq<Seq<u8>> {
        chunk_contents(self.chunks@)
    }
}

impl InboundRecord {
    /// An empty record.
    pub fn new() -> (r: InboundRecord)
        ensures
            r@ == Seq::<Seq<u8>>::empty(),
    {
        let r = InboundRecord { chunks: Vec::new() };
        assert(r@ =~= Seq::<Seq<u8>>::empty());
        r
    }

    /// The number of chunks waiting to be drained.
    pub fn len(&self) -> (r: usize)
        ensures
            r == self@.len(),
    {
        self.chunks.len()
    }

    /// Adds a chunk after every chunk already held.
    pub fn append(&mut self, chunk: Bytes)
        ensures
            final(self)@ == appended(old(self)@, bytes_contents(chunk)),
    {
        self.chunks.push(chunk);
        assert(self@ =~= appended(old(self)@, bytes_contents(chunk)));
    }

    /// Hands out every chunk held, in arrival order, and leaves the record
    /// empty. With nothing pending it returns an empty sequence.
    pub fn drain_received(&mut self) -> (r: Vec<Bytes>)
        ensures
            chunk_contents(r@) == drained(old(self)@).0,
            final(self)@ == drained(old(self)@).1,
    {
        let mut out: Vec<Bytes> = Vec::new();
        std::mem::swap(&mut out, &mut self.chunks);
        assert(self@ =~= Seq::<Seq<u8>>::empty());
        out
    }
}

/// Appending `arrivals` one by one to an empty record and then draining it
/// returns them in the order they arrived.
pub proof fn lemma_fifo(arrivals: Seq<Seq<u8>>)
    ensures
        drained(appended_all(Seq::empty(), arrivals)).0 == arrivals,
{
    lemma_appended_all(Seq::empty(), arrivals);
    assert(Seq::<Seq<u8>>::empty() + arrivals =~= arrivals);
}

/// Appending one by one adds the arrivals at the end, in order.
proof fn lemma_appended_all(pending: Seq<Seq<u8>>, arrivals: Seq<Seq<u8>>)
    ensures
        appended_all(pending, arrivals) == pending + arrivals,
    decreases arrivals.len(),
{
    if arrivals.len() > 0 {
        lemma_appended_all(appended(pending, arrivals[0]), arrivals.drop_first());
        assert(appended(pending, arrivals[0]) + arrivals.drop_first() =~= pending + arrivals);
    } else {
        assert(pending + arrivals =~= pending);
    }
}

/// Draining twice with no arrival in between: the first drain returns every
/// pending chunk, so it is non-empty when something was pending, and the
/// second returns nothing.
pub proof fn lemma_drain_twice(pending: Seq<Seq<u8>>)
    requires
        pending.len() > 0,
    ensures
        drained(pending).0 == pending,
        drained(pending).0.len() > 0,
        drained(drained(pending).1).0 == Seq::<Seq<u8>>::empty(),
{
}

} // verus!
