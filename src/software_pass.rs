use vstd::prelude::*;
use crate::ceiling::{AppConfig, ConfigError, TaskDesc, TaskKind};
use crate::dispatcher::{Dispatcher, strictly_increasing};

verus! {

/// Task `t` is a software task run from dispatcher line `line`.
pub open spec fn hosted(tasks: Seq<TaskDesc>, line: usize, t: int) -> bool {
    &&& 0 <= t < tasks.len()
    &&& tasks[t].kind is Software
    &&& tasks[t].kind->dispatcher == line
}

/// Two different software tasks on `line` share a priority.
pub open spec fn priority_clash(tasks: Seq<TaskDesc>, line: usize) -> bool {
    exists|t1: int, t2: int|
        t1 != t2 && #[trigger] hosted(tasks, line, t1) && #[trigger] hosted(tasks, line, t2) && tasks[t1].priority
            == tasks[t2].priority
}

/// The queue capacity declared for a task (0 for any but a software task).
pub open spec fn capacity_of(k: TaskKind) -> usize {
    match k {
        TaskKind::Software { capacity, .. } => capacity,
        _ => 0,
    }
}

/// What the software pass decides for one dispatcher line: the tasks it
/// hosts, lowest priority first (task `tasks[i]` gets ready bit `i`), their
/// priorities and queue capacities, and the line's hardware priority.
#[derive(Clone, Debug)]
pub struct DispatcherPlan {
    pub line: usize,
    pub tasks: Vec<usize>,
    pub priorities: Vec<u8>,
    pub capacities: Vec<usize>,
    pub priority: u8,
}

/// `plan` is the plan of dispatcher line `line` for `tasks`: it lists every
/// software task on the line and no other, in strictly increasing priority,
/// with each task's priority and capacity, and runs the line at the highest
/// of those priorities (0 for a line that hosts nothing).
pub open spec fn plans_line(tasks: Seq<TaskDesc>, line: usize, plan: DispatcherPlan) -> bool {
    &&& plan.line == line
    &&& plan.tasks@.len() == plan.priorities@.len()
    &&& plan.tasks@.len() == plan.capacities@.len()
    &&& plan.tasks@.len() <= 32
    &&& forall|i: int|
        0 <= i < plan.tasks@.len() ==> {
            &&& hosted(tasks, line, #[trigger] plan.tasks@[i] as int)
            &&& plan.priorities@[i] == tasks[plan.tasks@[i] as int].priority
            &&& plan.capacities@[i] == capacity_of(tasks[plan.tasks@[i] as int].kind)
        }
    &&& forall|t: int| #[trigger] hosted(tasks, line, t) ==> plan.tasks@.contains(t as usize)
    &&& strictly_increasing(plan.priorities@)
    &&& plan.priority == if plan.priorities@.len() == 0 {
        0u8
    } else {
        plan.priorities@.last()
    }
}

proof fn lemma_same_hosted_set(
    tasks: Seq<TaskDesc>,
    line: usize,
    ids: Seq<usize>,
    prios: Seq<u8>,
    plan: DispatcherPlan,
)
    requires
        ids.len() == prios.len(),
        forall|i: int|
            0 <= i < ids.len() ==> hosted(tasks, line, #[trigger] ids[i] as int) && prios[i]
                == tasks[ids[i] as int].priority,
        forall|t: int| #[trigger] hosted(tasks, line, t) ==> ids.contains(t as usize),
        strictly_increasing(prios),
        plans_line(tasks, line, plan),
    ensures
        ids.len() == plan.tasks@.len(),
{
    let other = plan.tasks@;
    assert(ids.no_duplicates()) by {
        assert forall|i: int, j: int| 0 <= i < ids.len() && 0 <= j < ids.len() && i != j implies ids[i] != ids[j] by {
            if i < j {
                assert(prios[i] < prios[j]);
            } else {
                assert(prios[j] < prios[i]);
            }
        }
    }
    assert(other.no_duplicates()) by {
        assert forall|i: int, j: int|
            0 <= i < other.len() && 0 <= j < other.len() && i != j implies other[i] != other[j] by {
            if i < j {
                assert(plan.priorities@[i] < plan.priorities@[j]);
            } else {
                assert(plan.priorities@[j] < plan.priorities@[i]);
            }
        }
    }
    assert(ids.to_set() =~= other.to_set()) by {
        assert forall|x: usize| ids.to_set().contains(x) implies other.to_set().contains(x) by {
            let i = choose|i: int| 0 <= i < ids.len() && ids[i] == x;
            assert(hosted(tasks, line, ids[i] as int));
        }
        assert forall|x: usize| other.to_set().contains(x) implies ids.to_set().contains(x) by {
            let i = choose|i: int| 0 <= i < other.len() && other[i] == x;
            assert(hosted(tasks, line, other[i] as int));
        }
    }
    ids.unique_seq_to_set();
    other.unique_seq_to_set();
}

/// The pass that multiplexes software tasks onto dispatcher lines.
pub struct ScSoftwarePass {}

/// Plans dispatcher line `line`: collects its software tasks in increasing
/// priority. Fails when two of them share a priority (checked first) or when
/// there are more than 32.
pub fn plan_line(tasks: &Vec<TaskDesc>, line: usize) -> (res: Result<DispatcherPlan, ConfigError>)
    ensures
        res is Ok <==> !priority_clash(tasks@, line) && (exists|plan: DispatcherPlan|
            plans_line(tasks@, line, plan)),
        res matches Ok(plan) ==> plans_line(tasks@, line, plan),
        res matches Err(e) ==> (e == ConfigError::DuplicatePriority { dispatcher: line } && priority_clash(tasks@, line))
            || (e == ConfigError::TooManyTasks { dispatcher: line } && !priority_clash(tasks@, line)),
{
    let mut ids: Vec<usize> = Vec::new();
    let mut prios: Vec<u8> = Vec::new();
    let mut caps: Vec<usize> = Vec::new();
    let mut p: u16 = 0;
    while p < 256
        invariant
            p <= 256,
            ids@.len() == prios@.len(),
            ids@.len() == caps@.len(),
            forall|i: int|
                0 <= i < ids@.len() ==> {
                    &&& hosted(tasks@, line, #[trigger] ids@[i] as int)
                    &&& prios@[i] == tasks@[ids@[i] as int].priority
                    &&& caps@[i] == capacity_of(tasks@[ids@[i] as int].kind)
                    &&& prios@[i] < p
                },
            forall|t: int| #[trigger] hosted(tasks@, line, t) && tasks@[t].priority < p ==> ids@.contains(t as usize),
            strictly_increasing(prios@),
            forall|t1: int, t2: int|
                t1 != t2 && #[trigger] hosted(tasks@, line, t1) && #[trigger] hosted(tasks@, line, t2)
                    && tasks@[t1].priority < p ==> tasks@[t1].priority != tasks@[t2].priority,
        decreases 256 - p,
    {
        let ghost base = ids@.len();
        assert forall|i: int| 0 <= i < base implies #[trigger] prios@[i] < p by {
            assert(hosted(tasks@, line, ids@[i] as int));
        }
        let mut found: bool = false;
        let mut t: usize = 0;
        while t < tasks.len()
            invariant
                p < 256,
                t <= tasks@.len(),
                ids@.len() == prios@.len(),
                ids@.len() == caps@.len(),
                base <= ids@.len(),
                ids@.len() <= base + 1,
                found <==> ids@.len() == base + 1,
                found ==> ids@[base as int] < t && tasks@[ids@[base as int] as int].priority == p,
                forall|i: int|
                    0 <= i < ids@.len() ==> {
                        &&& hosted(tasks@, line, #[trigger] ids@[i] as int)
                        &&& prios@[i] == tasks@[ids@[i] as int].priority
                        &&& caps@[i] == capacity_of(tasks@[ids@[i] as int].kind)
                        &&& prios@[i] <= p
                    },
                forall|i: int| 0 <= i < base ==> #[trigger] prios@[i] < p,
                forall|u: int|
                    #[trigger] hosted(tasks@, line, u) && tasks@[u].priority < p ==> ids@.contains(u as usize),
                forall|u: int|
                    0 <= u < t && #[trigger] hosted(tasks@, line, u) && tasks@[u].priority == p ==> ids@.contains(
                        u as usize,
                    ),
                forall|u: int|
                    0 <= u < t && #[trigger] hosted(tasks@, line, u) && tasks@[u].priority == p ==> u
                        == ids@[base as int],
                strictly_increasing(prios@),
                forall|t1: int, t2: int|
                    t1 != t2 && #[trigger] hosted(tasks@, line, t1) && #[trigger] hosted(tasks@, line, t2)
                        && tasks@[t1].priority < p ==> tasks@[t1].priority != tasks@[t2].priority,
            decreases tasks@.len() - t,
        {
            let is_here = match tasks[t].kind {
                TaskKind::Software { dispatcher, .. } => dispatcher == line,
                _ => false,
            };
            if is_here && tasks[t].priority as u16 == p {
                if found {
                    proof {
                        let u = ids@[base as int] as int;
                        assert(hosted(tasks@, line, u) && hosted(tasks@, line, t as int));
                        assert(priority_clash(tasks@, line));
                    }
                    return Err(ConfigError::DuplicatePriority { dispatcher: line });
                }
                let cap = match tasks[t].kind {
                    TaskKind::Software { capacity, .. } => capacity,
                    _ => 0,
                };
                let ghost old_ids = ids@;
                ids.push(t);
                prios.push(tasks[t].priority);
                caps.push(cap);
                found = true;
                proof {
                    assert(ids@[base as int] == t);
                    assert forall|u: int|
                        #[trigger] hosted(tasks@, line, u) && tasks@[u].priority < p implies ids@.contains(u as usize) by {
                        assert(old_ids.contains(u as usize));
                        let k = choose|k: int| 0 <= k < old_ids.len() && old_ids[k] == u as usize;
                        assert(ids@[k] == old_ids[k]);
                    }
                    assert forall|u: int|
                        0 <= u < t + 1 && #[trigger] hosted(tasks@, line, u) && tasks@[u].priority == p implies ids@.contains(
                        u as usize) by {
                        assert(ids@[base as int] == t);
                    }
                }
            }
            t = t + 1;
        }
        proof {
            assert forall|u: int|
                #[trigger] hosted(tasks@, line, u) && tasks@[u].priority < p + 1 implies ids@.contains(u as usize) by {
                if tasks@[u].priority == p {
                    assert(u < tasks@.len());
                }
            }
            assert forall|t1: int, t2: int|
                t1 != t2 && #[trigger] hosted(tasks@, line, t1) && #[trigger] hosted(tasks@, line, t2)
                    && tasks@[t1].priority < p + 1 implies tasks@[t1].priority != tasks@[t2].priority by {
                if tasks@[t1].priority == p && tasks@[t2].priority == p {
                    assert(t1 == ids@[base as int]);
                    assert(t2 == ids@[base as int]);
                }
            }
        }
        p = p + 1;
    }
    proof {
        assert(!priority_clash(tasks@, line)) by {
            assert forall|t1: int, t2: int|
                t1 != t2 && #[trigger] hosted(tasks@, line, t1) && #[trigger] hosted(tasks@, line, t2) implies tasks@[t1].priority
                != tasks@[t2].priority by {
                assert(tasks@[t1].priority < 256);
            }
        }
    }
    if ids.len() > 32 {
        proof {
            assert forall|plan: DispatcherPlan| !plans_line(tasks@, line, plan) by {
                if plans_line(tasks@, line, plan) {
                    lemma_same_hosted_set(tasks@, line, ids@, prios@, plan);
                }
            }
        }
        return Err(ConfigError::TooManyTasks { dispatcher: line });
    }
    let priority = if prios.len() == 0 {
        0
    } else {
        prios[prios.len() - 1]
    };
    let plan = DispatcherPlan { line, tasks: ids, priorities: prios, capacities: caps, priority };
    proof {
        assert forall|t: int| #[trigger] hosted(tasks@, line, t) implies plan.tasks@.contains(t as usize) by {
            assert(tasks@[t].priority < 256);
        }
        assert(plans_line(tasks@, line, plan));
    }
    Ok(plan)
}

/// Some software task runs from dispatcher line `line`.
pub open spec fn hosts_any(tasks: Seq<TaskDesc>, line: usize) -> bool {
    exists|t: int| hosted(tasks, line, t)
}

/// Dispatcher line `line` can be planned: no two of its software tasks share
/// a priority and it hosts no more than 32 of them.
pub open spec fn line_plannable(tasks: Seq<TaskDesc>, line: usize) -> bool {
    !priority_clash(tasks, line) && exists|plan: DispatcherPlan| plans_line(tasks, line, plan)
}

/// `plans` has one plan for each dispatcher line that some software task
/// names, and no other.
pub open spec fn plans_all(tasks: Seq<TaskDesc>, plans: Seq<DispatcherPlan>) -> bool {
    &&& forall|k: int| 0 <= k < plans.len() ==> plans_line(tasks, (#[trigger] plans[k]).line, plans[k])
    &&& forall|k: int| 0 <= k < plans.len() ==> hosts_any(tasks, (#[trigger] plans[k]).line)
    &&& forall|k1: int, k2: int|
        0 <= k1 < k2 < plans.len() ==> (#[trigger] plans[k1]).line != (#[trigger] plans[k2]).line
    &&& forall|t: int|
        0 <= t < tasks.len() && (#[trigger] tasks[t]).kind is Software ==> exists|k: int|
            0 <= k < plans.len() && (#[trigger] plans[k]).line == tasks[t].kind->dispatcher
}

impl ScSoftwarePass {
    /// Groups the software tasks of `cfg` onto their dispatcher lines: one
    /// plan per line that some software task names, in the order the lines
    /// first appear. Fails with the first line that cannot be planned.
    pub fn run_pass(&self, cfg: &AppConfig) -> (res: Result<Vec<DispatcherPlan>, ConfigError>)
        ensures
            res is Ok <==> forall|t: int|
                0 <= t < cfg.tasks@.len() && (#[trigger] cfg.tasks@[t]).kind is Software ==> line_plannable(
                    cfg.tasks@,
                    cfg.tasks@[t].kind->dispatcher,
                ),
            res matches Ok(plans) ==> plans_all(cfg.tasks@, plans@),
            res matches Err(e) ==> exists|t: int|
                0 <= t < cfg.tasks@.len() && (#[trigger] cfg.tasks@[t]).kind is Software && {
                    let d = cfg.tasks@[t].kind->dispatcher;
                    (e == ConfigError::DuplicatePriority { dispatcher: d } && priority_clash(cfg.tasks@, d)) || (e
                        == ConfigError::TooManyTasks { dispatcher: d } && !priority_clash(cfg.tasks@, d))
                },
    {
        let tasks = &cfg.tasks;
        let mut plans: Vec<DispatcherPlan> = Vec::new();
        let mut t: usize = 0;
        while t < tasks.len()
            invariant
                t <= tasks@.len(),
                tasks == cfg.tasks,
                forall|k: int| 0 <= k < plans@.len() ==> plans_line(tasks@, (#[trigger] plans@[k]).line, plans@[k]),
                forall|k: int| 0 <= k < plans@.len() ==> hosts_any(tasks@, (#[trigger] plans@[k]).line),
                forall|k1: int, k2: int|
                    0 <= k1 < k2 < plans@.len() ==> (#[trigger] plans@[k1]).line != (#[trigger] plans@[k2]).line,
                forall|u: int|
                    0 <= u < t && (#[trigger] tasks@[u]).kind is Software ==> exists|k: int|
                        0 <= k < plans@.len() && (#[trigger] plans@[k]).line == tasks@[u].kind->dispatcher,
                forall|u: int|
                    0 <= u < t && (#[trigger] tasks@[u]).kind is Software ==> line_plannable(
                        tasks@,
                        tasks@[u].kind->dispatcher,
                    ),
            decreases tasks@.len() - t,
        {
            if let TaskKind::Software { dispatcher, .. } = tasks[t].kind {
                let mut seen: bool = false;
                let mut k: usize = 0;
                while k < plans.len()
                    invariant
                        k <= plans@.len(),
                        seen <==> exists|j: int| 0 <= j < k && (#[trigger] plans@[j]).line == dispatcher,
                    decreases plans@.len() - k,
                {
                    if plans[k].line == dispatcher {
                        seen = true;
                    }
                    k = k + 1;
                }
                proof {
                    assert(hosted(tasks@, dispatcher, t as int));
                }
                if !seen {
                    match plan_line(tasks, dispatcher) {
                        Ok(plan) => {
                            let ghost old_plans = plans@;
                            plans.push(plan);
                            proof {
                                assert(plans@[old_plans.len() as int] == plan);
                                assert forall|u: int|
                                    0 <= u < t + 1 && (#[trigger] tasks@[u]).kind is Software implies exists|j: int|
                                    0 <= j < plans@.len() && (#[trigger] plans@[j]).line == tasks@[u].kind->dispatcher by {
                                    if u < t {
                                        let j = choose|j: int|
                                            0 <= j < old_plans.len() && (#[trigger] old_plans[j]).line
                                                == tasks@[u].kind->dispatcher;
                                        assert(plans@[j] == old_plans[j]);
                                    } else {
                                        assert(plans@[old_plans.len() as int].line == dispatcher);
                                    }
                                }
                                assert forall|j: int| 0 <= j < plans@.len() implies hosts_any(
                                    tasks@,
                                    (#[trigger] plans@[j]).line,
                                ) by {
                                    if j < old_plans.len() {
                                        assert(plans@[j] == old_plans[j]);
                                    } else {
                                        assert(hosted(tasks@, plans@[j].line, t as int));
                                    }
                                }
                                assert forall|k1: int, k2: int|
                                    0 <= k1 < k2 < plans@.len() implies (#[trigger] plans@[k1]).line != (
                                    #[trigger] plans@[k2]).line by {
                                    if k2 == old_plans.len() {
                                        assert(plans@[k1] == old_plans[k1]);
                                        if plans@[k1].line == dispatcher {
                                            assert(exists|j: int|
                                                0 <= j < old_plans.len() && (#[trigger] old_plans[j]).line == dispatcher);
                                        }
                                    } else {
                                        assert(plans@[k1] == old_plans[k1]);
                                        assert(plans@[k2] == old_plans[k2]);
                                    }
                                }
                            }
                        },
                        Err(e) => {
                            proof {
                                assert(cfg.tasks@[t as int].kind is Software);
                            }
                            return Err(e);
                        },
                    }
                } else {
                    proof {
                        let j = choose|j: int| 0 <= j < k && (#[trigger] plans@[j]).line == dispatcher;
                        assert(plans_line(tasks@, dispatcher, plans@[j]));
                    }
                }
            }
            t = t + 1;
        }
        Ok(plans)
    }
}

impl DispatcherPlan {
    /// The dispatcher this plan describes, with every queue empty.
    pub fn instantiate<P>(self) -> (d: Dispatcher<P>)
        requires
            self.priorities@.len() == self.capacities@.len(),
            self.priorities@.len() <= 32,
            strictly_increasing(self.priorities@),
        ensures
            d.wf(),
            d.line_spec() == self.line,
            d.priorities_spec() == self.priorities@,
            d.pending().len() == self.priorities@.len(),
            forall|i: int| 0 <= i < self.priorities@.len() ==> (#[trigger] d.pending()[i]).len() == 0,
            d.capacities() == self.capacities@.map_values(|c: usize| c as nat),
    {
        Dispatcher::new(self.line, self.priorities, &self.capacities)
    }
}

} // verus!
