use vstd::prelude::*;
use crate::controller::{Controller, Line, pend};
use crate::queue::{SpawnError, SpawnQueue};

verus! {

/// Bit `i` of the ready mask `m`.
pub open spec fn bit(m: u32, i: int) -> bool {
    m & (1u32 << (i as u32)) != 0
}

/// Each priority is above the one before it.
pub open spec fn strictly_increasing(s: Seq<u8>) -> bool {
    forall|i: int, j: int| 0 <= i < j < s.len() ==> s[i] < s[j]
}

proof fn lemma_bit_set(m: u32, i: u32, j: u32)
    requires
        i < 32,
        j < 32,
    ensures
        ((m | (1u32 << i)) & (1u32 << j) != 0) == (i == j || m & (1u32 << j) != 0),
{
    assert(((m | (1u32 << i)) & (1u32 << j) != 0) == (i == j || m & (1u32 << j) != 0)) by (bit_vector)
        requires
            i < 32,
            j < 32,
    ;
}

proof fn lemma_bit_clear(m: u32, i: u32, j: u32)
    requires
        i < 32,
        j < 32,
    ensures
        ((m & !(1u32 << i)) & (1u32 << j) != 0) == (i != j && m & (1u32 << j) != 0),
{
    assert(((m & !(1u32 << i)) & (1u32 << j) != 0) == (i != j && m & (1u32 << j) != 0)) by (bit_vector)
        requires
            i < 32,
            j < 32,
    ;
}

/// Each payload of `s` paired with task index `t`.
pub open spec fn tagged<P>(t: int, s: Seq<P>) -> Seq<(usize, P)> {
    s.map_values(|p: P| (t as usize, p))
}

/// The order in which a dispatcher with nothing further spawned runs the
/// waiting invocations of its tasks `0 .. n`: the most urgent task's payloads
/// first, each task's payloads oldest first.
pub open spec fn drain_order<P>(pending: Seq<Seq<P>>, n: int) -> Seq<(usize, P)>
    decreases n,
{
    if n <= 0 {
        Seq::empty()
    } else {
        tagged(n - 1, pending[n - 1]) + drain_order(pending, n - 1)
    }
}

proof fn lemma_drain_order_prefix<P>(p: Seq<Seq<P>>, q: Seq<Seq<P>>, n: int)
    requires
        forall|k: int| 0 <= k < n ==> p[k] == q[k],
    ensures
        drain_order(p, n) == drain_order(q, n),
    decreases n,
{
    if n > 0 {
        lemma_drain_order_prefix(p, q, n - 1);
    }
}

proof fn lemma_drain_order_empty<P>(p: Seq<Seq<P>>, n: int)
    requires
        forall|k: int| 0 <= k < n ==> (#[trigger] p[k]).len() == 0,
    ensures
        drain_order(p, n) == Seq::<(usize, P)>::empty(),
    decreases n,
{
    if n > 0 {
        lemma_drain_order_empty(p, n - 1);
        assert(tagged(n - 1, p[n - 1]) =~= Seq::<(usize, P)>::empty());
    }
}

proof fn lemma_drain_order_step<P>(p: Seq<Seq<P>>, n: int, t: int)
    requires
        0 <= t < n <= p.len(),
        p[t].len() > 0,
        forall|j: int| t < j < n ==> (#[trigger] p[j]).len() == 0,
    ensures
        drain_order(p, n) == seq![(t as usize, p[t][0])] + drain_order(p.update(t, p[t].drop_first()), n),
    decreases n,
{
    let q = p.update(t, p[t].drop_first());
    if n - 1 > t {
        lemma_drain_order_step(p, n - 1, t);
        assert(tagged(n - 1, p[n - 1]) =~= Seq::<(usize, P)>::empty());
        assert(q[n - 1] == p[n - 1]);
        assert(drain_order(p, n) =~= drain_order(p, n - 1));
        assert(drain_order(q, n) =~= drain_order(q, n - 1));
    } else {
        lemma_drain_order_prefix(p, q, t);
        assert(tagged(t, p[t]) =~= seq![(t as usize, p[t][0])] + tagged(t, q[t]));
        assert(drain_order(p, n) =~= seq![(t as usize, p[t][0])] + drain_order(q, n));
    }
}

/// A dispatcher line hosting up to 32 software tasks. Task `i` owns bit `i`
/// of the ready mask and spawn queue `i`; tasks are held in increasing
/// priority, so bit order is priority order. A task's ready bit is set
/// exactly while its queue holds a payload.
pub struct Dispatcher<P> {
    line: usize,
    priorities: Vec<u8>,
    queues: Vec<SpawnQueue<P>>,
    ready: u32,
}

impl<P> Dispatcher<P> {
    /// The interrupt line the dispatcher runs on.
    pub closed spec fn line_spec(&self) -> usize {
        self.line
    }

    /// The hosted tasks' priorities, lowest first.
    pub closed spec fn priorities_spec(&self) -> Seq<u8> {
        self.priorities@
    }

    /// The payloads waiting for each hosted task, oldest first.
    pub closed spec fn pending(&self) -> Seq<Seq<P>> {
        Seq::new(self.queues@.len(), |i: int| self.queues@[i]@)
    }

    /// The capacity of each hosted task's queue.
    pub closed spec fn capacities(&self) -> Seq<nat> {
        Seq::new(self.queues@.len(), |i: int| self.queues@[i].cap())
    }

    pub closed spec fn wf(&self) -> bool {
        &&& self.priorities@.len() == self.queues@.len()
        &&& self.queues@.len() <= 32
        &&& strictly_increasing(self.priorities@)
        &&& forall|i: int| 0 <= i < self.queues@.len() ==> (#[trigger] self.queues@[i]).wf()
        &&& forall|i: int|
            0 <= i < self.queues@.len() ==> bit(self.ready, i) == (#[trigger] self.queues@[i]@.len() > 0)
    }

    /// A dispatcher on `line` hosting one task per entry of `priorities`
    /// (given lowest first, all distinct), task `i` with a queue of
    /// `capacities[i]` entries. Nothing is ready.
    pub fn new(line: usize, priorities: Vec<u8>, capacities: &Vec<usize>) -> (d: Self)
        requires
            priorities@.len() == capacities@.len(),
            priorities@.len() <= 32,
            strictly_increasing(priorities@),
        ensures
            d.wf(),
            d.line_spec() == line,
            d.priorities_spec() == priorities@,
            d.pending().len() == priorities@.len(),
            forall|i: int| 0 <= i < priorities@.len() ==> (#[trigger] d.pending()[i]).len() == 0,
            d.capacities() == capacities@.map_values(|c: usize| c as nat),
    {
        let mut queues: Vec<SpawnQueue<P>> = Vec::new();
        let mut i: usize = 0;
        while i < capacities.len()
            invariant
                i <= capacities@.len(),
                queues@.len() == i,
                forall|k: int| 0 <= k < i ==> (#[trigger] queues@[k]).wf() && queues@[k]@.len() == 0
                    && queues@[k].cap() == capacities@[k],
            decreases capacities@.len() - i,
        {
            queues.push(SpawnQueue::new(capacities[i]));
            i = i + 1;
        }
        let d = Dispatcher { line, priorities, queues, ready: 0 };
        proof {
            assert forall|k: int| 0 <= k < d.queues@.len() implies bit(d.ready, k) == (
            #[trigger] d.queues@[k]@.len() > 0) by {
                let kk = k as u32;
                assert(0u32 & (1u32 << kk) == 0) by (bit_vector);
            }
            assert(d.capacities() =~= capacities@.map_values(|c: usize| c as nat));
        }
        d
    }

    /// The dispatcher line.
    pub fn line(&self) -> (l: usize)
        ensures
            l == self.line_spec(),
    {
        self.line
    }

    /// The number of hosted tasks.
    pub fn num_tasks(&self) -> (n: usize)
        requires
            self.wf(),
        ensures
            n == self.pending().len(),
            n == self.priorities_spec().len(),
    {
        self.queues.len()
    }

    /// The hardware priority of the line: that of its most urgent task, or 0
    /// when it hosts none.
    pub fn line_priority(&self) -> (p: u8)
        requires
            self.wf(),
        ensures
            forall|i: int| 0 <= i < self.priorities_spec().len() ==> self.priorities_spec()[i] <= p,
            self.priorities_spec().len() == 0 ==> p == 0,
            self.priorities_spec().len() > 0 ==> p == self.priorities_spec().last(),
    {
        if self.priorities.len() == 0 {
            0
        } else {
            self.priorities[self.priorities.len() - 1]
        }
    }

    /// Whether task `task` has an invocation waiting (its ready bit).
    pub fn is_ready(&self, task: usize) -> (r: bool)
        requires
            self.wf(),
            task < self.pending().len(),
        ensures
            r == (self.pending()[task as int].len() > 0),
    {
        assert(self.queues@[task as int]@ == self.pending()[task as int]);
        self.ready & (1u32 << (task as u32)) != 0
    }

    /// Spawns an invocation of task `task` with `payload`: the payload joins
    /// the back of the task's queue, its ready bit is set and the dispatcher
    /// line is pended. On a full queue the invocation is dropped, nothing
    /// changes, and `QueueFull` is returned.
    pub fn spawn(&mut self, ctrl: &mut Controller, task: usize, payload: P) -> (res: Result<(), SpawnError>)
        requires
            old(self).wf(),
            task < old(self).pending().len(),
            old(self).line_spec() < old(ctrl).lines@.len(),
        ensures
            final(self).wf(),
            final(self).line_spec() == old(self).line_spec(),
            final(self).priorities_spec() == old(self).priorities_spec(),
            final(self).capacities() == old(self).capacities(),
            res is Ok <==> old(self).pending()[task as int].len() < old(self).capacities()[task as int],
            res is Ok ==> final(self).pending() == old(self).pending().update(
                task as int,
                old(self).pending()[task as int].push(payload),
            ),
            res is Ok ==> final(ctrl).threshold == old(ctrl).threshold && final(ctrl).interrupts_enabled == old(
                ctrl,
            ).interrupts_enabled && final(ctrl).lines@ == old(
                ctrl,
            ).lines@.update(
                old(self).line_spec() as int,
                Line { pending: true, ..old(ctrl).lines@[old(self).line_spec() as int] },
            ),
            res is Err ==> final(self).pending() == old(self).pending() && *final(ctrl) == *old(ctrl),
    {
        let res = self.queues[task].push(payload);
        match res {
            Ok(()) => {
                let old_ready = self.ready;
                self.ready = self.ready | (1u32 << (task as u32));
                proof {
                    assert forall|i: int| 0 <= i < self.queues@.len() implies bit(self.ready, i) == (
                    #[trigger] self.queues@[i]@.len() > 0) by {
                        lemma_bit_set(old_ready, task as u32, i as u32);
                    }
                    assert(self.pending() =~= old(self).pending().update(
                        task as int,
                        old(self).pending()[task as int].push(payload),
                    ));
                }
                pend(ctrl, self.line);
                Ok(())
            },
            Err(e) => {
                proof {
                    assert(self.pending() =~= old(self).pending());
                }
                Err(e)
            },
        }
    }

    /// One step of the dispatcher body: reads the ready mask afresh, picks the
    /// most urgent ready task, takes the oldest payload from its queue
    /// (clearing its ready bit once the queue is empty) and returns the task
    /// and payload to run. Returns `None`, changing nothing, when no task is
    /// ready.
    pub fn take_next(&mut self) -> (res: Option<(usize, P)>)
        requires
            old(self).wf(),
        ensures
            final(self).wf(),
            final(self).line_spec() == old(self).line_spec(),
            final(self).priorities_spec() == old(self).priorities_spec(),
            final(self).capacities() == old(self).capacities(),
            res is None <==> forall|i: int|
                0 <= i < old(self).pending().len() ==> (#[trigger] old(self).pending()[i]).len() == 0,
            res is None ==> final(self).pending() == old(self).pending(),
            res matches Some((t, p)) ==> {
                &&& t < old(self).pending().len()
                &&& old(self).pending()[t as int].len() > 0
                &&& p == old(self).pending()[t as int][0]
                &&& forall|j: int|
                    t < j < old(self).pending().len() ==> (#[trigger] old(self).pending()[j]).len() == 0
                &&& forall|j: int|
                    0 <= j < old(self).pending().len() && (#[trigger] old(self).pending()[j]).len() > 0
                        ==> old(self).priorities_spec()[j] <= old(self).priorities_spec()[t as int]
                &&& final(self).pending() == old(self).pending().update(
                    t as int,
                    old(self).pending()[t as int].drop_first(),
                )
            },
    {
        let n = self.queues.len();
        let mut i: usize = n;
        while i > 0
            invariant
                i <= n,
                n == self.queues@.len(),
                self == old(self),
                self.wf(),
                forall|j: int| i <= j < n ==> (#[trigger] self.queues@[j])@.len() == 0,
            decreases i,
        {
            i = i - 1;
            if self.ready & (1u32 << (i as u32)) != 0 {
                let p = self.queues[i].pop();
                match p {
                    Some(p) => {
                        let old_ready = self.ready;
                        if self.queues[i].is_empty() {
                            self.ready = self.ready & !(1u32 << (i as u32));
                        }
                        proof {
                            assert forall|k: int| 0 <= k < self.queues@.len() implies bit(self.ready, k) == (
                            #[trigger] self.queues@[k]@.len() > 0) by {
                                lemma_bit_clear(old_ready, i as u32, k as u32);
                            }
                            assert(self.pending() =~= old(self).pending().update(
                                i as int,
                                old(self).pending()[i as int].drop_first(),
                            ));
                            assert(self.capacities() =~= old(self).capacities());
                            assert forall|j: int|
                                0 <= j < old(self).pending().len() && (#[trigger] old(self).pending()[j]).len()
                                    > 0 implies old(self).priorities_spec()[j] <= old(self).priorities_spec()[i as int] by {
                                if j > i {
                                    assert(old(self).queues@[j]@.len() == 0);
                                }
                            }
                        }
                        return Some((i, p));
                    },
                    None => {
                        // unreachable: a set ready bit means the queue holds a payload
                        proof {
                            assert(false);
                        }
                        return None;
                    },
                }
            }
        }
        proof {
            assert forall|k: int| 0 <= k < old(self).pending().len() implies (
            #[trigger] old(self).pending()[k]).len() == 0 by {
                assert(old(self).pending()[k] == old(self).queues@[k]@);
            }
        }
        None
    }

    /// Runs the dispatcher body to completion with nothing spawned meanwhile:
    /// takes invocations one at a time, re-reading the ready mask after each,
    /// until no task is ready. Returns them in the order taken, which is
    /// `drain_order`: most urgent task first, each task's payloads in the
    /// order they were spawned.
    pub fn drain(&mut self) -> (out: Vec<(usize, P)>)
        requires
            old(self).wf(),
        ensures
            final(self).wf(),
            final(self).line_spec() == old(self).line_spec(),
            final(self).priorities_spec() == old(self).priorities_spec(),
            final(self).capacities() == old(self).capacities(),
            final(self).pending().len() == old(self).pending().len(),
            forall|i: int| 0 <= i < final(self).pending().len() ==> (#[trigger] final(self).pending()[i]).len() == 0,
            out@ == drain_order(old(self).pending(), old(self).pending().len() as int),
    {
        let ghost n = self.pending().len() as int;
        let mut out: Vec<(usize, P)> = Vec::new();
        loop
            invariant
                self.wf(),
                self.line_spec() == old(self).line_spec(),
                self.priorities_spec() == old(self).priorities_spec(),
                self.capacities() == old(self).capacities(),
                self.pending().len() == n,
                n == old(self).pending().len(),
                out@ + drain_order(self.pending(), n) == drain_order(old(self).pending(), n),
            decreases drain_order(self.pending(), n).len(),
        {
            let ghost before = self.pending();
            match self.take_next() {
                Some((t, p)) => {
                    proof {
                        lemma_drain_order_step(before, n, t as int);
                        assert(out@.push((t, p)) + drain_order(self.pending(), n) =~= out@ + drain_order(before, n));
                    }
                    out.push((t, p));
                },
                None => {
                    proof {
                        lemma_drain_order_empty(self.pending(), n);
                        assert(out@ =~= out@ + drain_order(self.pending(), n));
                    }
                    return out;
                },
            }
        }
    }
}

} // verus!
