use vstd::prelude::*;

verus! {

/// A batch handed from a pool worker to the protocol consumer: the
/// collected requests together with the instant, in microseconds, at
/// which the batch was created.
pub struct ClientRqBatch<T> {
    pub requests: Vec<T>,
    pub created_at: u64,
}

/// Bounded first-in first-out channel carrying batches from the pool
/// workers to the single protocol consumer. The worker side refuses a
/// batch once the capacity is reached; the consumer side pops batches
/// in the order they were sent.
pub struct BatchChannel<T> {
    items: Vec<ClientRqBatch<T>>,
    capacity: usize,
}

impl<T> View for BatchChannel<T> {
    type V = Seq<ClientRqBatch<T>>;

    closed spec fn view(&self) -> Seq<ClientRqBatch<T>> {
        self.items@
    }
}

impl<T> BatchChannel<T> {
    /// The number of batches this channel can hold at once.
    pub closed spec fn spec_capacity(&self) -> usize {
        self.capacity
    }

    /// The channel never holds more batches than its capacity.
    pub open spec fn wf(&self) -> bool {
        self@.len() <= self.spec_capacity()
    }

    pub fn new(capacity: usize) -> (r: Self)
        ensures
            r@ == Seq::<ClientRqBatch<T>>::empty(),
            r.spec_capacity() == capacity,
            r.wf(),
    {
        BatchChannel { items: Vec::new(), capacity }
    }

    pub fn len(&self) -> (r: usize)
        ensures
            r == self@.len(),
    {
        self.items.len()
    }

    pub fn capacity(&self) -> (r: usize)
        ensures
            r == self.spec_capacity(),
    {
        self.capacity
    }

    /// Appends a batch unless the channel is full; a refused batch is
    /// handed back unchanged so the caller can retry.
    pub fn send(&mut self, batch: ClientRqBatch<T>) -> (r: Result<(), ClientRqBatch<T>>)
        requires
            old(self).wf(),
        ensures
            final(self).wf(),
            final(self).spec_capacity() == old(self).spec_capacity(),
            old(self)@.len() < old(self).spec_capacity() ==> {
                &&& r is Ok
                &&& final(self)@ == old(self)@.push(batch)
            },
            old(self)@.len() >= old(self).spec_capacity() ==> {
                &&& (r matches Err(b) && b == batch)
                &&& final(self)@ == old(self)@
            },
    {
        if self.items.len() < self.capacity {
            self.items.push(batch);
            Ok(())
        } else {
            Err(batch)
        }
    }

    /// Pops the oldest pending batch, or nothing when the channel is empty.
    pub fn try_recv(&mut self) -> (r: Option<ClientRqBatch<T>>)
        requires
            old(self).wf(),
        ensures
            final(self).wf(),
            final(self).spec_capacity() == old(self).spec_capacity(),
            old(self)@.len() == 0 ==> r is None && final(self)@ == old(self)@,
            old(self)@.len() > 0 ==> {
                &&& (r matches Some(b) && b == old(self)@[0])
                &&& final(self)@ == old(self)@.skip(1)
            },
    {
        if self.items.len() == 0 {
            None
        } else {
            let batch = self.items.remove(0);
            proof {
                assert(self.items@ =~= old(self)@.skip(1));
            }
            Some(batch)
        }
    }
}

} // verus!
