use vstd::prelude::*;
use crate::controller::Controller;

verus! {

/// Whether a task of priority `p` may preempt a context that runs at
/// `running` priority while the threshold register holds `threshold`.
pub open spec fn preempts(running: u8, threshold: u8, p: u8) -> bool {
    p > running && p > threshold
}

/// The controller as the body of a lock sees it: on the raise path the
/// threshold is lifted to `max(threshold, ceiling)`, on the fast path it is
/// left alone.
pub open spec fn raised(c: Controller, task_priority: u8, ceiling: u8) -> Controller {
    if task_priority < ceiling {
        Controller { threshold: if c.threshold >= ceiling { c.threshold } else { ceiling }, ..c }
    } else {
        c
    }
}

/// The controller after the lock returns, given the one the body left
/// behind: on the raise path the saved threshold is written back.
pub open spec fn restored(after_body: Controller, saved: u8, task_priority: u8, ceiling: u8) -> Controller {
    if task_priority < ceiling {
        Controller { threshold: saved, ..after_body }
    } else {
        after_body
    }
}

/// Whether a task of priority `p` may now preempt a context running at
/// priority `running`: interrupts must be enabled, and `p` must be above
/// both `running` and the threshold.
pub fn may_preempt(ctrl: &Controller, running: u8, p: u8) -> (r: bool)
    ensures
        r == (ctrl.interrupts_enabled && preempts(running, ctrl.threshold, p)),
{
    ctrl.interrupts_enabled() && p > running && p > ctrl.read_threshold()
}

/// Enters a critical section at `ceiling` for a task of priority
/// `task_priority`. On the raise path (`task_priority < ceiling`) the
/// threshold is raised to `max(threshold, ceiling)`; on the fast path nothing
/// is written. Returns the threshold on entry, to be handed to `restore`.
pub fn raise(ctrl: &mut Controller, task_priority: u8, ceiling: u8) -> (saved: u8)
    ensures
        saved == old(ctrl).threshold,
        *final(ctrl) == raised(*old(ctrl), task_priority, ceiling),
{
    let current = ctrl.read_threshold();
    if task_priority < ceiling {
        let level = if current >= ceiling { current } else { ceiling };
        ctrl.write_threshold(level);
    }
    current
}

/// Leaves a critical section entered by `raise`: on the raise path the
/// threshold saved on entry is written back; on the fast path nothing is
/// written.
pub fn restore(ctrl: &mut Controller, saved: u8, task_priority: u8, ceiling: u8)
    ensures
        *final(ctrl) == restored(*old(ctrl), saved, task_priority, ceiling),
{
    if task_priority < ceiling {
        ctrl.write_threshold(saved);
    }
}

/// Runs `body` with exclusive access to `res` inside a priority-ceiling
/// critical section and returns what `body` returns.
///
/// When `task_priority >= ceiling` no task that shares `res` can preempt
/// the caller, so `body` runs directly and the threshold is not touched.
/// Otherwise the threshold is saved, raised to `max(threshold, ceiling)`,
/// `body` runs, and the saved value is written back, whatever `body` did to
/// the threshold. Nested locks inside `body` see the raised threshold.
///
/// For any nesting of locks the threshold comes back to its value on entry:
/// the raise path restores it itself, and on the fast path it does whenever
/// every run of `body` leaves it as it found it, as a body that only takes
/// nested locks does.
pub fn lock<T, R, F>(ctrl: &mut Controller, res: &mut T, task_priority: u8, ceiling: u8, body: F) -> (r: R)
    where
        F: FnOnce(&mut T, &mut Controller) -> R,
    requires
        forall|a: &mut T, b: &mut Controller|
            *a == *old(res) && *b == raised(*old(ctrl), task_priority, ceiling) ==> #[trigger] body.requires((a, b)),
    ensures
        exists|a: &mut T, b: &mut Controller|
            *a == *old(res) && *b == raised(*old(ctrl), task_priority, ceiling) && *final(a) == *final(res)
                && *final(ctrl) == restored(*final(b), old(ctrl).threshold, task_priority, ceiling)
                && #[trigger] body.ensures((a, b), r),
        task_priority < ceiling ==> final(ctrl).threshold == old(ctrl).threshold,
        (forall|a: &mut T, b: &mut Controller, o: R|
            #[trigger] body.ensures((a, b), o) ==> final(b).threshold == b.threshold)
            ==> final(ctrl).threshold == old(ctrl).threshold,
{
    let saved = raise(ctrl, task_priority, ceiling);
    let r = body(res, ctrl);
    restore(ctrl, saved, task_priority, ceiling);
    r
}

/// Inside a lock at `ceiling` taken by a task of priority
/// `task_priority <= ceiling`, no task of priority at most `ceiling` can
/// preempt; when the lock is the outermost one (the threshold was at most
/// `ceiling` on entry), every task of priority above `ceiling` can.
pub proof fn lemma_no_inversion(c: Controller, task_priority: u8, ceiling: u8, p: u8)
    requires
        task_priority <= ceiling,
    ensures
        p <= ceiling ==> !preempts(task_priority, raised(c, task_priority, ceiling).threshold, p),
        c.threshold <= ceiling ==> (preempts(task_priority, raised(c, task_priority, ceiling).threshold, p)
            <==> p > ceiling),
{
}

/// When `task_priority >= ceiling`, the fast path is indistinguishable from
/// the raise/restore path: raising the threshold to the ceiling would not
/// change which tasks may preempt the body, and the fast path hands the body
/// the controller unchanged and leaves behind what the body left.
pub proof fn lemma_fast_path_equivalence(c: Controller, after_body: Controller, task_priority: u8, ceiling: u8, p: u8)
    requires
        task_priority >= ceiling,
    ensures
        raised(c, task_priority, ceiling) == c,
        restored(after_body, c.threshold, task_priority, ceiling) == after_body,
        preempts(task_priority, c.threshold, p) == preempts(
            task_priority,
            if c.threshold >= ceiling { c.threshold } else { ceiling },
            p,
        ),
{
}

} // verus!
