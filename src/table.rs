use vstd::prelude::*;
use crate::ceiling::{AppConfig, TaskDesc, TaskKind};
use crate::controller::{Controller, Line, Polarity, Trigger, enable};
use crate::software_pass::DispatcherPlan;

verus! {

/// The lowest priority a line is ever configured at.
pub const MIN_TASK_PRIORITY: u8 = 1;

/// What runs when a line fires.
#[derive(Clone, Copy, Debug, PartialEq, Eq, Structural)]
pub enum Handler {
    /// The `exec` of hardware task `task`.
    Task { task: usize },
    /// The body of the dispatcher planned by plan `plan`.
    Dispatcher { plan: usize },
}

/// An interrupt line, the priority it runs at, and what it runs.
#[derive(Clone, Copy, Debug, PartialEq, Eq, Structural)]
pub struct Binding {
    pub line: usize,
    pub priority: u8,
    pub handler: Handler,
}

/// The static map from interrupt line to handler.
#[derive(Clone, Debug)]
pub struct DispatchTable {
    pub bindings: Vec<Binding>,
}

/// The bindings of the hardware tasks among `tasks[0 .. n]`, in task order.
pub open spec fn task_bindings(tasks: Seq<TaskDesc>, n: int) -> Seq<Binding>
    decreases n,
{
    if n <= 0 {
        Seq::empty()
    } else {
        let rest = task_bindings(tasks, n - 1);
        match tasks[n - 1].kind {
            TaskKind::Hardware { line } => rest.push(
                Binding { line, priority: tasks[n - 1].priority, handler: Handler::Task { task: (n - 1) as usize } },
            ),
            _ => rest,
        }
    }
}

/// The bindings of the dispatcher lines of `plans`, in plan order.
pub open spec fn plan_bindings(plans: Seq<DispatcherPlan>) -> Seq<Binding> {
    Seq::new(
        plans.len(),
        |k: int| Binding { line: plans[k].line, priority: plans[k].priority, handler: Handler::Dispatcher { plan: k as usize } },
    )
}

/// The priority a binding's line is configured at: its own, but never below
/// `MIN_TASK_PRIORITY`.
pub open spec fn line_level(b: Binding) -> u8 {
    if b.priority < MIN_TASK_PRIORITY {
        MIN_TASK_PRIORITY
    } else {
        b.priority
    }
}

/// The lines after enabling the lines of `bindings[0 .. n]` in order.
pub open spec fn configured(lines: Seq<Line>, bindings: Seq<Binding>, n: int) -> Seq<Line>
    decreases n,
{
    if n <= 0 {
        lines
    } else {
        let before = configured(lines, bindings, n - 1);
        let b = bindings[n - 1];
        before.update(
            b.line as int,
            Line {
                level: line_level(b),
                enabled: true,
                pending: before[b.line as int].pending,
                trigger: Trigger::Edge,
                polarity: Polarity::Positive,
            },
        )
    }
}

proof fn lemma_configured_len(lines: Seq<Line>, bindings: Seq<Binding>, n: int)
    requires
        0 <= n <= bindings.len(),
        forall|k: int| 0 <= k < bindings.len() ==> (#[trigger] bindings[k]).line < lines.len(),
    ensures
        configured(lines, bindings, n).len() == lines.len(),
    decreases n,
{
    if n > 0 {
        lemma_configured_len(lines, bindings, n - 1);
    }
}

impl DispatchTable {
    /// Binds each hardware task to its own line at its priority, then each
    /// planned dispatcher line to its dispatcher at the line's priority.
    pub fn build(cfg: &AppConfig, plans: &Vec<DispatcherPlan>) -> (table: DispatchTable)
        ensures
            table.bindings@ == task_bindings(cfg.tasks@, cfg.tasks@.len() as int) + plan_bindings(plans@),
    {
        let tasks = &cfg.tasks;
        let mut bindings: Vec<Binding> = Vec::new();
        let mut t: usize = 0;
        while t < tasks.len()
            invariant
                t <= tasks@.len(),
                bindings@ == task_bindings(tasks@, t as int),
            decreases tasks@.len() - t,
        {
            if let TaskKind::Hardware { line } = tasks[t].kind {
                bindings.push(Binding { line, priority: tasks[t].priority, handler: Handler::Task { task: t } });
            }
            t = t + 1;
        }
        let ghost hw = bindings@;
        let mut k: usize = 0;
        while k < plans.len()
            invariant
                k <= plans@.len(),
                hw == task_bindings(cfg.tasks@, cfg.tasks@.len() as int),
                bindings@ == hw + plan_bindings(plans@).subrange(0, k as int),
            decreases plans@.len() - k,
        {
            bindings.push(
                Binding { line: plans[k].line, priority: plans[k].priority, handler: Handler::Dispatcher { plan: k } },
            );
            proof {
                assert(plan_bindings(plans@).subrange(0, k + 1) =~= plan_bindings(plans@).subrange(0, k as int).push(
                    plan_bindings(plans@)[k as int],
                ));
            }
            k = k + 1;
        }
        proof {
            assert(plan_bindings(plans@).subrange(0, plans@.len() as int) =~= plan_bindings(plans@));
        }
        DispatchTable { bindings }
    }

    /// What runs when `line` fires: the handler of the first binding of
    /// `line`, or `None` when the line is not bound.
    pub fn lookup(&self, line: usize) -> (h: Option<Handler>)
        ensures
            h is None <==> forall|k: int| 0 <= k < self.bindings@.len() ==> (#[trigger] self.bindings@[k]).line != line,
            h matches Some(hd) ==> exists|k: int|
                0 <= k < self.bindings@.len() && (#[trigger] self.bindings@[k]).line == line && self.bindings@[k].handler
                    == hd && forall|j: int| 0 <= j < k ==> (#[trigger] self.bindings@[j]).line != line,
    {
        let mut k: usize = 0;
        while k < self.bindings.len()
            invariant
                k <= self.bindings@.len(),
                forall|j: int| 0 <= j < k ==> (#[trigger] self.bindings@[j]).line != line,
            decreases self.bindings@.len() - k,
        {
            if self.bindings[k].line == line {
                return Some(self.bindings[k].handler);
            }
            k = k + 1;
        }
        None
    }

    /// Start-up configuration, once every task instance exists: each bound
    /// line is made edge-triggered, positive polarity, at its binding's
    /// priority (at least `MIN_TASK_PRIORITY`) and unmasked, in binding
    /// order. Pending bits and the threshold are kept.
    pub fn post_init(&self, ctrl: &mut Controller)
        requires
            forall|k: int| 0 <= k < self.bindings@.len() ==> (#[trigger] self.bindings@[k]).line < old(ctrl).lines@.len(),
        ensures
            final(ctrl).threshold == old(ctrl).threshold,
            final(ctrl).interrupts_enabled == old(ctrl).interrupts_enabled,
            final(ctrl).lines@ == configured(old(ctrl).lines@, self.bindings@, self.bindings@.len() as int),
    {
        let mut k: usize = 0;
        while k < self.bindings.len()
            invariant
                k <= self.bindings@.len(),
                forall|j: int| 0 <= j < self.bindings@.len() ==> (#[trigger] self.bindings@[j]).line < old(ctrl).lines@.len(),
                ctrl.threshold == old(ctrl).threshold,
                ctrl.interrupts_enabled == old(ctrl).interrupts_enabled,
                ctrl.lines@ == configured(old(ctrl).lines@, self.bindings@, k as int),
            decreases self.bindings@.len() - k,
        {
            let b = self.bindings[k];
            let level = if b.priority < MIN_TASK_PRIORITY {
                MIN_TASK_PRIORITY
            } else {
                b.priority
            };
            proof {
                lemma_configured_len(old(ctrl).lines@, self.bindings@, k as int);
            }
            enable(ctrl, b.line, level);
            k = k + 1;
        }
    }
}

} // verus!
