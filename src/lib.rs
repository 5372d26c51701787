//! Runtime core of a static-priority, interrupt-driven preemptive scheduler
//! built on the Stack Resource Policy (priority-ceiling protocol).
//!
//! The library is organised leaves first:
//! - `controller`: the state of one core's interrupt controller as the
//!   runtime sees it (lines, pending bits, priority threshold);
//! - `lock`: the priority-ceiling critical section;
//! - `ceiling`: the task set, its resource accesses and the ceiling table;
//! - `queue`: the fixed-capacity spawn queue;
//! - `dispatcher`: software tasks multiplexed on one dispatcher line;
//! - `software_pass`: grouping software tasks onto dispatcher lines;
//! - `table`: the dispatch table from interrupt line to handler, and
//!   start-up configuration of the lines;
//! - `resources`: the ceiling table of a core and the per-task resource
//!   proxies through which every access takes a lock.

pub mod controller;
pub mod lock;
pub mod ceiling;
pub mod queue;
pub mod dispatcher;
pub mod software_pass;
pub mod table;
pub mod resources;
