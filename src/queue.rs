use vstd::prelude::*;

verus! {

/// A spawn into a queue that was already full: the invocation is dropped.
#[derive(Clone, Copy, Debug, PartialEq, Eq, Structural)]
pub enum SpawnError {
    QueueFull,
}

/// Fixed-capacity FIFO holding one payload per pending invocation of a
/// software task. Its capacity is set when it is made and never changes.
pub struct SpawnQueue<P> {
    items: Vec<P>,
    capacity: usize,
}

impl<P> View for SpawnQueue<P> {
    type V = Seq<P>;

    /// The queued payloads, oldest first.
    closed spec fn view(&self) -> Seq<P> {
        self.items@
    }
}

impl<P> SpawnQueue<P> {
    /// The number of entries the queue can hold.
    pub closed spec fn cap(&self) -> nat {
        self.capacity as nat
    }

    /// The queue holds no more than its capacity.
    pub closed spec fn wf(&self) -> bool {
        self.items@.len() <= self.capacity
    }

    /// An empty queue of the given capacity.
    pub fn new(capacity: usize) -> (q: Self)
        ensures
            q.wf(),
            q@ == Seq::<P>::empty(),
            q.cap() == capacity,
    {
        SpawnQueue { items: Vec::new(), capacity }
    }

    pub fn capacity(&self) -> (c: usize)
        ensures
            c == self.cap(),
    {
        self.capacity
    }

    pub fn len(&self) -> (n: usize)
        ensures
            n == self@.len(),
    {
        self.items.len()
    }

    pub fn is_empty(&self) -> (e: bool)
        ensures
            e == (self@.len() == 0),
    {
        self.items.len() == 0
    }

    pub fn is_full(&self) -> (f: bool)
        requires
            self.wf(),
        ensures
            f == (self@.len() == self.cap()),
    {
        self.items.len() == self.capacity
    }

    /// Appends `payload` at the back. On a full queue nothing changes and
    /// `QueueFull` is returned.
    pub fn push(&mut self, payload: P) -> (res: Result<(), SpawnError>)
        requires
            old(self).wf(),
        ensures
            final(self).wf(),
            final(self).cap() == old(self).cap(),
            res is Ok <==> old(self)@.len() < old(self).cap(),
            res is Ok ==> final(self)@ == old(self)@.push(payload),
            res is Err ==> final(self)@ == old(self)@,
    {
        if self.items.len() < self.capacity {
            self.items.push(payload);
            Ok(())
        } else {
            Err(SpawnError::QueueFull)
        }
    }

    /// Removes and returns the oldest payload, or `None` on an empty queue.
    pub fn pop(&mut self) -> (res: Option<P>)
        requires
            old(self).wf(),
        ensures
            final(self).wf(),
            final(self).cap() == old(self).cap(),
            old(self)@.len() == 0 ==> res is None && final(self)@ == old(self)@,
            old(self)@.len() > 0 ==> res == Some(old(self)@[0]) && final(self)@ == old(self)@.drop_first(),
    {
        if self.items.len() == 0 {
            None
        } else {
            let p = self.items.remove(0);
            proof {
                assert(self.items@ =~= old(self).items@.drop_first());
            }
            Some(p)
        }
    }
}

} // verus!
