use rtic_srp::ceiling::{AppConfig, TaskDesc, TaskKind};
use rtic_srp::controller::{pend, Controller, Polarity, Trigger};
use rtic_srp::software_pass::ScSoftwarePass;
use rtic_srp::table::{DispatchTable, Handler};

fn config() -> AppConfig {
    AppConfig {
        core: 0,
        tasks: vec![
            TaskDesc { priority: 2, kind: TaskKind::Hardware { line: 0 }, shared: vec![] },
            TaskDesc { priority: 0, kind: TaskKind::Hardware { line: 1 }, shared: vec![] },
            TaskDesc { priority: 3, kind: TaskKind::Software { dispatcher: 3, capacity: 2 }, shared: vec![] },
            TaskDesc { priority: 0, kind: TaskKind::Idle, shared: vec![] },
        ],
        n_resources: 0,
    }
}

#[test]
fn table_binds_hardware_tasks_then_dispatchers() {
    let cfg = config();
    let plans = ScSoftwarePass {}.run_pass(&cfg).unwrap();
    let table = DispatchTable::build(&cfg, &plans);
    assert_eq!(table.bindings.len(), 3);
    assert_eq!(table.lookup(0), Some(Handler::Task { task: 0 }));
    assert_eq!(table.lookup(1), Some(Handler::Task { task: 1 }));
    assert_eq!(table.lookup(3), Some(Handler::Dispatcher { plan: 0 }));
    assert_eq!(table.lookup(2), None);
    assert_eq!(table.bindings[2].priority, 3);
}

#[test]
fn post_init_configures_every_bound_line() {
    let cfg = config();
    let plans = ScSoftwarePass {}.run_pass(&cfg).unwrap();
    let table = DispatchTable::build(&cfg, &plans);
    let mut ctrl = Controller::new(4);
    pend(&mut ctrl, 3);
    table.post_init(&mut ctrl);
    assert!(ctrl.is_enabled(0));
    assert_eq!(ctrl.level(0), 2);
    // a priority below the minimum is raised to it
    assert!(ctrl.is_enabled(1));
    assert_eq!(ctrl.level(1), 1);
    assert!(!ctrl.is_enabled(2));
    assert_eq!(ctrl.level(2), 0);
    assert!(ctrl.is_enabled(3));
    assert_eq!(ctrl.level(3), 3);
    assert!(ctrl.is_pending(3));
    assert_eq!(ctrl.lines[0].trigger, Trigger::Edge);
    assert_eq!(ctrl.lines[0].polarity, Polarity::Positive);
    assert_eq!(ctrl.read_threshold(), 0);
}
