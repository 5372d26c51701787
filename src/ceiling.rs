use vstd::prelude::*;

verus! {

/// What a task is bound to.
#[derive(Clone, Copy, Debug, PartialEq, Eq, Structural)]
pub enum TaskKind {
    /// Runs when interrupt line `line` fires.
    Hardware { line: usize },
    /// Runs from dispatcher line `dispatcher`, with a spawn queue of
    /// `capacity` entries.
    Software { dispatcher: usize, capacity: usize },
    /// Runs when nothing else does.
    Idle,
}

/// A task as the configuration declares it: its fixed priority (higher is
/// more urgent), what it is bound to, and the resources it accesses.
#[derive(Clone, Debug)]
pub struct TaskDesc {
    pub priority: u8,
    pub kind: TaskKind,
    pub shared: Vec<usize>,
}

/// The configuration of one core: its tasks and its number of shared
/// resources, which are named by index. A software task's spawn queue is
/// shared like any other resource: naming it among the resources of each
/// task that spawns the task gives the queue its ceiling.
#[derive(Clone, Debug)]
pub struct AppConfig {
    pub core: u32,
    pub tasks: Vec<TaskDesc>,
    pub n_resources: usize,
}

/// A configuration that no running system may be built from.
#[derive(Clone, Copy, Debug, PartialEq, Eq, Structural)]
pub enum ConfigError {
    /// `task` names a resource that does not exist.
    UnknownResource { task: usize, resource: usize },
    /// The ceiling of `resource` is below the priority of `task`, which
    /// accesses it.
    CeilingTooLow { resource: usize, task: usize },
    /// Two tasks are bound to interrupt line `line`.
    DuplicateLine { line: usize },
    /// Two software tasks on dispatcher line `dispatcher` share a priority.
    DuplicatePriority { dispatcher: usize },
    /// Dispatcher line `dispatcher` hosts more than 32 software tasks.
    TooManyTasks { dispatcher: usize },
}

/// Task `t` is declared to access resource `r`.
pub open spec fn accesses(tasks: Seq<TaskDesc>, t: int, r: int) -> bool {
    0 <= t < tasks.len() && 0 <= r && tasks[t].shared@.contains(r as usize)
}

/// `r` is among the first `n` entries of `s`.
pub open spec fn listed(s: Seq<usize>, n: int, r: int) -> bool {
    exists|k: int| 0 <= k < n && #[trigger] s[k] as int == r
}

/// The highest priority among tasks `0 .. n` that access `r`, or 0 if none
/// does.
pub open spec fn ceiling_upto(tasks: Seq<TaskDesc>, r: int, n: int) -> u8
    decreases n,
{
    if n <= 0 {
        0
    } else {
        let c = ceiling_upto(tasks, r, n - 1);
        if accesses(tasks, n - 1, r) && tasks[n - 1].priority > c {
            tasks[n - 1].priority
        } else {
            c
        }
    }
}

/// The ceiling of resource `r`: the highest priority of any task that
/// accesses it, or 0 when no task does.
pub open spec fn ceiling_of(tasks: Seq<TaskDesc>, r: int) -> u8 {
    ceiling_upto(tasks, r, tasks.len() as int)
}

/// `ceilings` gives every task that accesses a resource a ceiling at least
/// its priority, and names no resource outside the table.
pub open spec fn ceilings_sound(tasks: Seq<TaskDesc>, ceilings: Seq<u8>) -> bool {
    forall|t: int, j: int|
        0 <= t < tasks.len() && 0 <= j < tasks[t].shared@.len() ==> {
            let r = #[trigger] tasks[t].shared@[j] as int;
            r < ceilings.len() && ceilings[r] >= tasks[t].priority
        }
}

proof fn lemma_ceiling_upto_bounds(tasks: Seq<TaskDesc>, r: int, n: int, t: int)
    requires
        0 <= t < n <= tasks.len(),
        accesses(tasks, t, r),
    ensures
        ceiling_upto(tasks, r, n) >= tasks[t].priority,
    decreases n,
{
    if t < n - 1 {
        lemma_ceiling_upto_bounds(tasks, r, n - 1, t);
    }
}

proof fn lemma_ceiling_upto_attained(tasks: Seq<TaskDesc>, r: int, n: int)
    requires
        0 <= n <= tasks.len(),
    ensures
        ceiling_upto(tasks, r, n) == 0 || exists|t: int|
            0 <= t < n && accesses(tasks, t, r) && #[trigger] tasks[t].priority == ceiling_upto(tasks, r, n),
    decreases n,
{
    if n > 0 {
        lemma_ceiling_upto_attained(tasks, r, n - 1);
    }
}

/// Ceiling soundness: every task that accesses a resource has a priority no
/// higher than the resource's ceiling.
pub proof fn lemma_ceiling_sound(tasks: Seq<TaskDesc>, t: int, r: int)
    requires
        accesses(tasks, t, r),
    ensures
        ceiling_of(tasks, r) >= tasks[t].priority,
{
    lemma_ceiling_upto_bounds(tasks, r, tasks.len() as int, t);
}

/// The ceiling is tight: unless it is 0, some task that accesses the
/// resource has exactly that priority.
pub proof fn lemma_ceiling_attained(tasks: Seq<TaskDesc>, r: int)
    ensures
        ceiling_of(tasks, r) == 0 || exists|t: int|
            accesses(tasks, t, r) && #[trigger] tasks[t].priority == ceiling_of(tasks, r),
{
    lemma_ceiling_upto_attained(tasks, r, tasks.len() as int);
}

/// Computes the ceiling table: for each resource, the highest priority of any
/// task that accesses it (0 when none does). Indices beyond `n_resources`
/// name no resource and are passed over.
pub fn compute_ceilings(cfg: &AppConfig) -> (ceilings: Vec<u8>)
    ensures
        ceilings@.len() == cfg.n_resources,
        forall|r: int| 0 <= r < cfg.n_resources ==> #[trigger] ceilings@[r] == ceiling_of(cfg.tasks@, r),
        forall|t: int, r: int|
            0 <= r < cfg.n_resources && #[trigger] accesses(cfg.tasks@, t, r) ==> ceilings@[r]
                >= cfg.tasks@[t].priority,
{
    let tasks = &cfg.tasks;
    let n = cfg.n_resources;
    let mut ceilings: Vec<u8> = Vec::new();
    let mut i: usize = 0;
    while i < n
        invariant
            i <= n,
            ceilings@.len() == i,
            forall|k: int| 0 <= k < i ==> ceilings@[k] == 0u8,
        decreases n - i,
    {
        ceilings.push(0);
        i = i + 1;
    }
    let mut t: usize = 0;
    while t < tasks.len()
        invariant
            t <= tasks@.len(),
            ceilings@.len() == n,
            forall|r: int| 0 <= r < n ==> #[trigger] ceilings@[r] == ceiling_upto(tasks@, r, t as int),
        decreases tasks@.len() - t,
    {
        let prio = tasks[t].priority;
        let shared = &tasks[t].shared;
        let mut j: usize = 0;
        while j < shared.len()
            invariant
                t < tasks@.len(),
                prio == tasks@[t as int].priority,
                shared == tasks@[t as int].shared,
                j <= shared@.len(),
                ceilings@.len() == n,
                forall|r: int|
                    0 <= r < n ==> #[trigger] ceilings@[r] == if listed(shared@, j as int, r)
                        && prio > ceiling_upto(tasks@, r, t as int) {
                        prio
                    } else {
                        ceiling_upto(tasks@, r, t as int)
                    },
            decreases shared@.len() - j,
        {
            let r = shared[j];
            if r < n && ceilings[r] < prio {
                ceilings.set(r, prio);
            }
            j = j + 1;
        }
        proof {
            assert forall|r: int| 0 <= r < n implies listed(shared@, shared@.len() as int, r)
                == accesses(tasks@, t as int, r) by {
                if accesses(tasks@, t as int, r) {
                    let k = choose|k: int| 0 <= k < shared@.len() && shared@[k] == r as usize;
                    assert(shared@[k] as int == r);
                }
            }
        }
        t = t + 1;
    }
    proof {
        assert forall|t: int, r: int|
            0 <= r < cfg.n_resources && #[trigger] accesses(cfg.tasks@, t, r) implies ceilings@[r]
                >= cfg.tasks@[t].priority by {
            lemma_ceiling_sound(cfg.tasks@, t, r);
        }
    }
    ceilings
}

/// Every resource that a task names exists.
pub open spec fn resources_known(cfg: AppConfig) -> bool {
    forall|t: int, j: int|
        0 <= t < cfg.tasks@.len() && 0 <= j < cfg.tasks@[t].shared@.len() ==> #[trigger] cfg.tasks@[t].shared@[j]
            < cfg.n_resources
}

/// The interrupt line that a task occupies: its own line for a hardware
/// task, its dispatcher line for a software task.
pub open spec fn bound_line(k: TaskKind) -> Option<usize> {
    match k {
        TaskKind::Hardware { line } => Some(line),
        TaskKind::Software { dispatcher, .. } => Some(dispatcher),
        TaskKind::Idle => None,
    }
}

/// Hardware task `t1` shares its line `line` with another task `t2`.
pub open spec fn line_clash(tasks: Seq<TaskDesc>, t1: int, t2: int, line: usize) -> bool {
    &&& 0 <= t1 < tasks.len()
    &&& 0 <= t2 < tasks.len()
    &&& t1 != t2
    &&& tasks[t1].kind == TaskKind::Hardware { line }
    &&& bound_line(tasks[t2].kind) == Some(line)
}

/// Some hardware task shares its line `line` with another task.
pub open spec fn line_taken_twice(tasks: Seq<TaskDesc>, line: usize) -> bool {
    exists|t1: int, t2: int| #[trigger] line_clash(tasks, t1, t2, line)
}

/// Each hardware task owns its line alone.
pub open spec fn lines_distinct(tasks: Seq<TaskDesc>) -> bool {
    forall|t1: int, t2: int, line: usize| !#[trigger] line_clash(tasks, t1, t2, line)
}

fn kind_line(k: TaskKind) -> (l: Option<usize>)
    ensures
        l == bound_line(k),
{
    match k {
        TaskKind::Hardware { line } => Some(line),
        TaskKind::Software { dispatcher, .. } => Some(dispatcher),
        TaskKind::Idle => None,
    }
}

/// Checks a configuration before a system is built from it: every resource a
/// task names must exist (checked first), and no two tasks may be bound to a
/// hardware task's line.
pub fn validate(cfg: &AppConfig) -> (res: Result<(), ConfigError>)
    ensures
        res is Ok <==> resources_known(*cfg) && lines_distinct(cfg.tasks@),
        !resources_known(*cfg) ==> res is Err && res->Err_0 is UnknownResource,
        res matches Err(ConfigError::UnknownResource { task, resource }) ==> accesses(
            cfg.tasks@,
            task as int,
            resource as int,
        ) && resource >= cfg.n_resources,
        res matches Err(ConfigError::DuplicateLine { line }) ==> line_taken_twice(cfg.tasks@, line),
        !(res matches Err(ConfigError::CeilingTooLow { .. })),
        !(res matches Err(ConfigError::DuplicatePriority { .. })),
        !(res matches Err(ConfigError::TooManyTasks { .. })),
{
    let tasks = &cfg.tasks;
    let mut t: usize = 0;
    while t < tasks.len()
        invariant
            t <= tasks@.len(),
            tasks == cfg.tasks,
            forall|u: int, j: int|
                0 <= u < t && 0 <= j < tasks@[u].shared@.len() ==> #[trigger] tasks@[u].shared@[j] < cfg.n_resources,
        decreases tasks@.len() - t,
    {
        let shared = &tasks[t].shared;
        let mut j: usize = 0;
        while j < shared.len()
            invariant
                t < tasks@.len(),
                tasks == cfg.tasks,
                shared == tasks@[t as int].shared,
                j <= shared@.len(),
                forall|u: int, k: int|
                    0 <= u < t && 0 <= k < tasks@[u].shared@.len() ==> #[trigger] tasks@[u].shared@[k]
                        < cfg.n_resources,
                forall|k: int| 0 <= k < j ==> #[trigger] shared@[k] < cfg.n_resources,
            decreases shared@.len() - j,
        {
            if shared[j] >= cfg.n_resources {
                proof {
                    let r = shared@[j as int];
                    assert(cfg.tasks@[t as int].shared@[j as int] == r);
                    assert(cfg.tasks@[t as int].shared@.contains(r));
                    assert(accesses(cfg.tasks@, t as int, r as int));
                    assert(!resources_known(*cfg));
                }
                return Err(ConfigError::UnknownResource { task: t, resource: shared[j] });
            }
            j = j + 1;
        }
        t = t + 1;
    }
    let mut t1: usize = 0;
    while t1 < tasks.len()
        invariant
            t1 <= tasks@.len(),
            resources_known(*cfg),
            tasks == cfg.tasks,
            forall|u1: int, u2: int, line: usize| u1 < t1 ==> !#[trigger] line_clash(tasks@, u1, u2, line),
        decreases tasks@.len() - t1,
    {
        if let TaskKind::Hardware { line } = tasks[t1].kind {
            let mut t2: usize = 0;
            while t2 < tasks.len()
                invariant
                    t1 < tasks@.len(),
                    t2 <= tasks@.len(),
                    tasks == cfg.tasks,
                    resources_known(*cfg),
                    tasks@[t1 as int].kind == (TaskKind::Hardware { line }),
                    forall|u2: int| u2 < t2 ==> !#[trigger] line_clash(tasks@, t1 as int, u2, line),
                decreases tasks@.len() - t2,
            {
                if t2 != t1 && kind_line(tasks[t2].kind) == Some(line) {
                    proof {
                        assert(line_clash(cfg.tasks@, t1 as int, t2 as int, line));
                        assert(line_taken_twice(cfg.tasks@, line));
                    }
                    return Err(ConfigError::DuplicateLine { line });
                }
                t2 = t2 + 1;
            }
            proof {
                assert forall|u1: int, u2: int, l: usize| u1 < t1 + 1 implies !#[trigger] line_clash(
                    tasks@,
                    u1,
                    u2,
                    l,
                ) by {
                    if u1 == t1 && line_clash(tasks@, u1, u2, l) {
                        assert(l == line);
                    }
                }
            }
        }
        t1 = t1 + 1;
    }
    Ok(())
}

/// Checks a given ceiling table against the configuration: each resource a
/// task accesses must be in the table, and its ceiling must be at least the
/// task's priority.
pub fn check_ceilings(cfg: &AppConfig, ceilings: &Vec<u8>) -> (res: Result<(), ConfigError>)
    ensures
        res is Ok <==> ceilings_sound(cfg.tasks@, ceilings@),
        res matches Err(ConfigError::UnknownResource { task, resource }) ==> accesses(
            cfg.tasks@,
            task as int,
            resource as int,
        ) && resource >= ceilings@.len(),
        res matches Err(ConfigError::CeilingTooLow { resource, task }) ==> accesses(
            cfg.tasks@,
            task as int,
            resource as int,
        ) && resource < ceilings@.len() && ceilings@[resource as int] < cfg.tasks@[task as int].priority,
        !(res matches Err(ConfigError::DuplicateLine { .. })),
        !(res matches Err(ConfigError::DuplicatePriority { .. })),
        !(res matches Err(ConfigError::TooManyTasks { .. })),
{
    let tasks = &cfg.tasks;
    let mut t: usize = 0;
    while t < tasks.len()
        invariant
            t <= tasks@.len(),
            tasks == cfg.tasks,
            forall|u: int, j: int|
                0 <= u < t && 0 <= j < tasks@[u].shared@.len() ==> {
                    let r = #[trigger] tasks@[u].shared@[j] as int;
                    r < ceilings@.len() && ceilings@[r] >= tasks@[u].priority
                },
        decreases tasks@.len() - t,
    {
        let shared = &tasks[t].shared;
        let prio = tasks[t].priority;
        let mut j: usize = 0;
        while j < shared.len()
            invariant
                t < tasks@.len(),
                tasks == cfg.tasks,
                shared == tasks@[t as int].shared,
                prio == tasks@[t as int].priority,
                j <= shared@.len(),
                forall|u: int, k: int|
                    0 <= u < t && 0 <= k < tasks@[u].shared@.len() ==> {
                        let r = #[trigger] tasks@[u].shared@[k] as int;
                        r < ceilings@.len() && ceilings@[r] >= tasks@[u].priority
                    },
                forall|k: int|
                    0 <= k < j ==> {
                        let r = #[trigger] shared@[k] as int;
                        r < ceilings@.len() && ceilings@[r] >= prio
                    },
            decreases shared@.len() - j,
        {
            let r = shared[j];
            if r >= ceilings.len() {
                proof {
                    assert(tasks@[t as int].shared@[j as int] == r);
                    assert(tasks@[t as int].shared@.contains(r));
                    assert(accesses(cfg.tasks@, t as int, r as int));
                }
                return Err(ConfigError::UnknownResource { task: t, resource: r });
            }
            if ceilings[r] < prio {
                proof {
                    assert(tasks@[t as int].shared@[j as int] == r);
                    assert(tasks@[t as int].shared@.contains(r));
                    assert(accesses(cfg.tasks@, t as int, r as int));
                }
                return Err(ConfigError::CeilingTooLow { resource: r, task: t });
            }
            j = j + 1;
        }
        t = t + 1;
    }
    Ok(())
}

} // verus!
