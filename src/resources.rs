use vstd::prelude::*;
use crate::ceiling::{AppConfig, TaskDesc, accesses, ceiling_of, compute_ceilings, lemma_ceiling_sound};
use crate::controller::Controller;
use crate::lock::{lock, raised, restored};

verus! {

/// A task's handle on one shared resource: the only way it reaches the
/// resource, always through a lock at the resource's ceiling taken at the
/// task's priority.
#[derive(Clone, Copy, Debug, PartialEq, Eq, Structural)]
pub struct ResourceProxy {
    pub resource: usize,
    pub priority: u8,
    pub ceiling: u8,
}

impl ResourceProxy {
    /// Runs `body` on the resource inside a lock at the proxy's ceiling taken
    /// at the proxy's task priority; see `lock`.
    pub fn lock<T, R, F>(&self, ctrl: &mut Controller, res: &mut T, body: F) -> (r: R)
        where
            F: FnOnce(&mut T, &mut Controller) -> R,
        requires
            forall|a: &mut T, b: &mut Controller|
                *a == *old(res) && *b == raised(*old(ctrl), self.priority, self.ceiling) ==> #[trigger] body.requires(
                    (a, b),
                ),
        ensures
            exists|a: &mut T, b: &mut Controller|
                *a == *old(res) && *b == raised(*old(ctrl), self.priority, self.ceiling) && *final(a) == *final(res)
                    && *final(ctrl) == restored(*final(b), old(ctrl).threshold, self.priority, self.ceiling)
                    && #[trigger] body.ensures((a, b), r),
            self.priority < self.ceiling ==> final(ctrl).threshold == old(ctrl).threshold,
            (forall|a: &mut T, b: &mut Controller, o: R|
                #[trigger] body.ensures((a, b), o) ==> final(b).threshold == b.threshold)
                ==> final(ctrl).threshold == old(ctrl).threshold,
    {
        lock(ctrl, res, self.priority, self.ceiling, body)
    }
}

/// The proxies a task of priority `priority` gets for the resources
/// `shared[0 .. n]` it names: one per name that the ceiling table knows, in
/// the order named, each at the resource's ceiling.
pub open spec fn proxies_for(shared: Seq<usize>, priority: u8, ceilings: Seq<u8>, n: int) -> Seq<ResourceProxy>
    decreases n,
{
    if n <= 0 {
        Seq::empty()
    } else {
        let rest = proxies_for(shared, priority, ceilings, n - 1);
        let r = shared[n - 1];
        if r < ceilings.len() {
            rest.push(ResourceProxy { resource: r, priority, ceiling: ceilings[r as int] })
        } else {
            rest
        }
    }
}

/// The shared resources of one core, described by their ceiling table.
pub struct SharedResources {
    ceilings: Vec<u8>,
}

impl SharedResources {
    /// The ceiling table.
    pub closed spec fn ceilings_spec(&self) -> Seq<u8> {
        self.ceilings@
    }

    /// The shared resources of `cfg`, with their ceilings computed from the
    /// task set.
    pub fn new(cfg: &AppConfig) -> (s: Self)
        ensures
            s.ceilings_spec().len() == cfg.n_resources,
            forall|r: int| 0 <= r < cfg.n_resources ==> #[trigger] s.ceilings_spec()[r] == ceiling_of(cfg.tasks@, r),
    {
        SharedResources { ceilings: compute_ceilings(cfg) }
    }

    pub fn num_resources(&self) -> (n: usize)
        ensures
            n == self.ceilings_spec().len(),
    {
        self.ceilings.len()
    }

    /// The ceiling of resource `resource`.
    pub fn ceiling(&self, resource: usize) -> (c: u8)
        requires
            resource < self.ceilings_spec().len(),
        ensures
            c == self.ceilings_spec()[resource as int],
    {
        self.ceilings[resource]
    }

    /// The proxy through which a task of priority `priority` reaches
    /// resource `resource`.
    pub fn proxy(&self, resource: usize, priority: u8) -> (p: ResourceProxy)
        requires
            resource < self.ceilings_spec().len(),
        ensures
            p == (ResourceProxy { resource, priority, ceiling: self.ceilings_spec()[resource as int] }),
    {
        ResourceProxy { resource, priority, ceiling: self.ceilings[resource] }
    }

    /// The resource proxies of task `task` of `cfg`: one for each resource it
    /// names that exists, in the order named, each carrying the task's
    /// priority and the resource's ceiling.
    pub fn generate_shared_for_task(&self, cfg: &AppConfig, task: usize) -> (proxies: Vec<ResourceProxy>)
        requires
            task < cfg.tasks@.len(),
        ensures
            proxies@ == proxies_for(
                cfg.tasks@[task as int].shared@,
                cfg.tasks@[task as int].priority,
                self.ceilings_spec(),
                cfg.tasks@[task as int].shared@.len() as int,
            ),
    {
        let shared = &cfg.tasks[task].shared;
        let priority = cfg.tasks[task].priority;
        let mut proxies: Vec<ResourceProxy> = Vec::new();
        let mut j: usize = 0;
        while j < shared.len()
            invariant
                j <= shared@.len(),
                proxies@ == proxies_for(shared@, priority, self.ceilings@, j as int),
            decreases shared@.len() - j,
        {
            let r = shared[j];
            if r < self.ceilings.len() {
                proxies.push(self.proxy(r, priority));
            }
            j = j + 1;
        }
        proxies
    }
}

/// Every proxy that a task gets from a ceiling table computed from its task
/// set locks at a ceiling no lower than the task's priority, so no task that
/// shares the resource can preempt the lock holder.
pub proof fn lemma_proxies_sound(tasks: Seq<TaskDesc>, ceilings: Seq<u8>, task: int, n: int, k: int)
    requires
        0 <= task < tasks.len(),
        0 <= n <= tasks[task].shared@.len(),
        forall|r: int| 0 <= r < ceilings.len() ==> #[trigger] ceilings[r] == ceiling_of(tasks, r),
        0 <= k < proxies_for(tasks[task].shared@, tasks[task].priority, ceilings, n).len(),
    ensures
        proxies_for(tasks[task].shared@, tasks[task].priority, ceilings, n)[k].ceiling >= proxies_for(
            tasks[task].shared@,
            tasks[task].priority,
            ceilings,
            n,
        )[k].priority,
        proxies_for(tasks[task].shared@, tasks[task].priority, ceilings, n)[k].priority == tasks[task].priority,
    decreases n,
{
    let shared = tasks[task].shared@;
    let rest = proxies_for(shared, tasks[task].priority, ceilings, n - 1);
    if k < rest.len() {
        lemma_proxies_sound(tasks, ceilings, task, n - 1, k);
    } else {
        let r = shared[n - 1];
        assert(shared.contains(r));
        assert(accesses(tasks, task, r as int));
        lemma_ceiling_sound(tasks, task, r as int);
    }
}

} // verus!
