use vstd::prelude::*;

verus! {

/// How an interrupt line reacts to its source signal.
#[derive(Clone, Copy, Debug, PartialEq, Eq, Structural)]
pub enum Trigger {
    Level,
    Edge,
}

/// Which edge or level of the source signal counts as active.
#[derive(Clone, Copy, Debug, PartialEq, Eq, Structural)]
pub enum Polarity {
    Positive,
    Negative,
}

/// Configuration and state of one interrupt line.
#[derive(Clone, Copy, Debug, PartialEq, Eq, Structural)]
pub struct Line {
    /// Hardware priority level of the line.
    pub level: u8,
    pub enabled: bool,
    /// Software-settable pending bit.
    pub pending: bool,
    pub trigger: Trigger,
    pub polarity: Polarity,
}

/// One core's interrupt controller: its lines, the global priority
/// threshold register and the global interrupt enable. A line may preempt
/// the running context only while interrupts are enabled and its level is
/// above the threshold.
pub struct Controller {
    pub threshold: u8,
    pub interrupts_enabled: bool,
    pub lines: Vec<Line>,
}

/// A line as it comes out of reset: level 0, masked, not pending.
pub open spec fn reset_line() -> Line {
    Line { level: 0, enabled: false, pending: false, trigger: Trigger::Level, polarity: Polarity::Positive }
}

impl Controller {
    /// A controller with `n_lines` lines, all in their reset state, a
    /// threshold of 0, and interrupts globally disabled.
    pub fn new(n_lines: usize) -> (c: Controller)
        ensures
            c.threshold == 0,
            !c.interrupts_enabled,
            c.lines@.len() == n_lines,
            forall|i: int| 0 <= i < n_lines ==> c.lines@[i] == reset_line(),
    {
        let mut lines: Vec<Line> = Vec::new();
        let mut i: usize = 0;
        while i < n_lines
            invariant
                i <= n_lines,
                lines@.len() == i,
                forall|k: int| 0 <= k < i ==> lines@[k] == reset_line(),
            decreases n_lines - i,
        {
            lines.push(Line {
                level: 0,
                enabled: false,
                pending: false,
                trigger: Trigger::Level,
                polarity: Polarity::Positive,
            });
            i = i + 1;
        }
        Controller { threshold: 0, interrupts_enabled: false, lines }
    }

    pub fn num_lines(&self) -> (n: usize)
        ensures
            n == self.lines@.len(),
    {
        self.lines.len()
    }

    /// Reads the current priority threshold.
    pub fn read_threshold(&self) -> (t: u8)
        ensures
            t == self.threshold,
    {
        self.threshold
    }

    /// Writes the priority threshold and returns the value it replaced.
    pub fn write_threshold(&mut self, level: u8) -> (prev: u8)
        ensures
            prev == old(self).threshold,
            final(self).threshold == level,
            final(self).interrupts_enabled == old(self).interrupts_enabled,
            final(self).lines == old(self).lines,
    {
        let prev = self.threshold;
        self.threshold = level;
        prev
    }

    pub fn is_pending(&self, line: usize) -> (p: bool)
        requires
            line < self.lines@.len(),
        ensures
            p == self.lines@[line as int].pending,
    {
        self.lines[line].pending
    }

    pub fn is_enabled(&self, line: usize) -> (e: bool)
        requires
            line < self.lines@.len(),
        ensures
            e == self.lines@[line as int].enabled,
    {
        self.lines[line].enabled
    }

    pub fn interrupts_enabled(&self) -> (e: bool)
        ensures
            e == self.interrupts_enabled,
    {
        self.interrupts_enabled
    }

    pub fn level(&self, line: usize) -> (l: u8)
        requires
            line < self.lines@.len(),
        ensures
            l == self.lines@[line as int].level,
    {
        self.lines[line].level
    }
}


/// Sets the pending bit of `line`. Pending a line that is already pending
/// changes nothing.
pub fn pend(ctrl: &mut Controller, line: usize)
    requires
        line < old(ctrl).lines@.len(),
    ensures
        final(ctrl).threshold == old(ctrl).threshold,
        final(ctrl).interrupts_enabled == old(ctrl).interrupts_enabled,
        final(ctrl).lines@ == old(ctrl).lines@.update(
            line as int,
            Line { pending: true, ..old(ctrl).lines@[line as int] },
        ),
{
    let mut l = ctrl.lines[line];
    l.pending = true;
    ctrl.lines.set(line, l);
}

/// Clears the pending bit of `line`.
pub fn unpend(ctrl: &mut Controller, line: usize)
    requires
        line < old(ctrl).lines@.len(),
    ensures
        final(ctrl).threshold == old(ctrl).threshold,
        final(ctrl).interrupts_enabled == old(ctrl).interrupts_enabled,
        final(ctrl).lines@ == old(ctrl).lines@.update(
            line as int,
            Line { pending: false, ..old(ctrl).lines@[line as int] },
        ),
{
    let mut l = ctrl.lines[line];
    l.pending = false;
    ctrl.lines.set(line, l);
}

/// Configures `line` as edge-triggered, positive polarity, at priority
/// `level`, and unmasks it. The pending bit is left as it was.
pub fn enable(ctrl: &mut Controller, line: usize, level: u8)
    requires
        line < old(ctrl).lines@.len(),
    ensures
        final(ctrl).threshold == old(ctrl).threshold,
        final(ctrl).interrupts_enabled == old(ctrl).interrupts_enabled,
        final(ctrl).lines@ == old(ctrl).lines@.update(
            line as int,
            Line {
                level,
                enabled: true,
                pending: old(ctrl).lines@[line as int].pending,
                trigger: Trigger::Edge,
                polarity: Polarity::Positive,
            },
        ),
{
    let mut l = ctrl.lines[line];
    l.trigger = Trigger::Edge;
    l.polarity = Polarity::Positive;
    l.level = level;
    l.enabled = true;
    ctrl.lines.set(line, l);
}

/// Masks `line`; its configuration and pending bit are kept.
pub fn disable(ctrl: &mut Controller, line: usize)
    requires
        line < old(ctrl).lines@.len(),
    ensures
        final(ctrl).threshold == old(ctrl).threshold,
        final(ctrl).interrupts_enabled == old(ctrl).interrupts_enabled,
        final(ctrl).lines@ == old(ctrl).lines@.update(
            line as int,
            Line { enabled: false, ..old(ctrl).lines@[line as int] },
        ),
{
    let mut l = ctrl.lines[line];
    l.enabled = false;
    ctrl.lines.set(line, l);
}

/// Globally unmasks interrupts.
pub fn interrupt_enable(ctrl: &mut Controller)
    ensures
        final(ctrl).interrupts_enabled,
        final(ctrl).threshold == old(ctrl).threshold,
        final(ctrl).lines == old(ctrl).lines,
{
    ctrl.interrupts_enabled = true;
}

/// Globally masks interrupts: nothing preempts until they are unmasked.
pub fn interrupt_disable(ctrl: &mut Controller)
    ensures
        !final(ctrl).interrupts_enabled,
        final(ctrl).threshold == old(ctrl).threshold,
        final(ctrl).lines == old(ctrl).lines,
{
    ctrl.interrupts_enabled = false;
}

/// Runs `body` with interrupts globally masked, then unmasks them, and
/// returns what `body` returns. Interrupts are unmasked afterwards whatever
/// `body` did with the enable.
pub fn interrupt_free<R, F>(ctrl: &mut Controller, body: F) -> (r: R)
    where
        F: FnOnce(&mut Controller) -> R,
    requires
        forall|b: &mut Controller|
            *b == (Controller { interrupts_enabled: false, ..*old(ctrl) }) ==> #[trigger] body.requires((b,)),
    ensures
        exists|b: &mut Controller|
            *b == (Controller { interrupts_enabled: false, ..*old(ctrl) }) && *final(ctrl) == (Controller {
                interrupts_enabled: true,
                ..*final(b)
            }) && #[trigger] body.ensures((b,), r),
        final(ctrl).interrupts_enabled,
{
    interrupt_disable(ctrl);
    let r = body(ctrl);
    interrupt_enable(ctrl);
    r
}

} // verus!
