use rtic_srp::ceiling::{AppConfig, ConfigError, TaskDesc, TaskKind};
use rtic_srp::software_pass::{plan_line, ScSoftwarePass};

fn sw(priority: u8, dispatcher: usize, capacity: usize) -> TaskDesc {
    TaskDesc { priority, kind: TaskKind::Software { dispatcher, capacity }, shared: Vec::new() }
}

fn hw(priority: u8, line: usize) -> TaskDesc {
    TaskDesc { priority, kind: TaskKind::Hardware { line }, shared: Vec::new() }
}

#[test]
fn pass_groups_tasks_by_line_in_priority_order() {
    let cfg = AppConfig {
        core: 0,
        tasks: vec![sw(3, 7, 2), hw(5, 1), sw(1, 7, 4), sw(2, 8, 1), sw(2, 7, 3)],
        n_resources: 0,
    };
    let plans = ScSoftwarePass {}.run_pass(&cfg).unwrap();
    assert_eq!(plans.len(), 2);
    assert_eq!(plans[0].line, 7);
    assert_eq!(plans[0].tasks, vec![2, 4, 0]);
    assert_eq!(plans[0].priorities, vec![1, 2, 3]);
    assert_eq!(plans[0].capacities, vec![4, 3, 2]);
    assert_eq!(plans[0].priority, 3);
    assert_eq!(plans[1].line, 8);
    assert_eq!(plans[1].tasks, vec![3]);
    assert_eq!(plans[1].priority, 2);
}

#[test]
fn pass_without_software_tasks_plans_nothing() {
    let cfg = AppConfig { core: 0, tasks: vec![hw(1, 0)], n_resources: 0 };
    assert_eq!(ScSoftwarePass {}.run_pass(&cfg).unwrap().len(), 0);
}

#[test]
fn pass_rejects_shared_priority_on_a_line() {
    let cfg = AppConfig { core: 0, tasks: vec![sw(2, 7, 1), sw(2, 7, 1), sw(2, 8, 1)], n_resources: 0 };
    assert_eq!(ScSoftwarePass {}.run_pass(&cfg).unwrap_err(), ConfigError::DuplicatePriority { dispatcher: 7 });
}

#[test]
fn equal_priorities_on_different_lines_are_fine() {
    let cfg = AppConfig { core: 0, tasks: vec![sw(2, 7, 1), sw(2, 8, 1)], n_resources: 0 };
    assert_eq!(ScSoftwarePass {}.run_pass(&cfg).unwrap().len(), 2);
}

#[test]
fn pass_rejects_more_than_32_tasks_on_a_line() {
    let mut tasks = Vec::new();
    for p in 0..33u8 {
        tasks.push(sw(p, 4, 1));
    }
    assert_eq!(plan_line(&tasks, 4).unwrap_err(), ConfigError::TooManyTasks { dispatcher: 4 });
    tasks.pop();
    assert_eq!(plan_line(&tasks, 4).unwrap().tasks.len(), 32);
}

#[test]
fn planned_dispatcher_runs_in_priority_order() {
    let cfg = AppConfig { core: 0, tasks: vec![sw(1, 2, 2), sw(3, 2, 2)], n_resources: 0 };
    let mut plans = ScSoftwarePass {}.run_pass(&cfg).unwrap();
    let plan = plans.remove(0);
    let mut d = plan.instantiate::<u32>();
    let mut ctrl = rtic_srp::controller::Controller::new(3);
    d.spawn(&mut ctrl, 0, 10).unwrap();
    d.spawn(&mut ctrl, 1, 30).unwrap();
    assert_eq!(d.drain(), vec![(1, 30), (0, 10)]);
}
