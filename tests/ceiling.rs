use rtic_srp::ceiling::{check_ceilings, compute_ceilings, validate, AppConfig, ConfigError, TaskDesc, TaskKind};

fn hw(priority: u8, line: usize, shared: Vec<usize>) -> TaskDesc {
    TaskDesc { priority, kind: TaskKind::Hardware { line }, shared }
}

fn sw(priority: u8, dispatcher: usize, capacity: usize, shared: Vec<usize>) -> TaskDesc {
    TaskDesc { priority, kind: TaskKind::Software { dispatcher, capacity }, shared }
}

fn sample() -> AppConfig {
    AppConfig {
        core: 0,
        tasks: vec![
            hw(1, 0, vec![0, 1]),
            hw(3, 1, vec![1]),
            sw(2, 5, 4, vec![0, 2]),
            TaskDesc { priority: 0, kind: TaskKind::Idle, shared: vec![3] },
        ],
        n_resources: 5,
    }
}

#[test]
fn ceilings_are_highest_accessor_priority() {
    let cfg = sample();
    let c = compute_ceilings(&cfg);
    assert_eq!(c, vec![2, 3, 2, 0, 0]);
}

#[test]
fn every_accessor_is_at_or_below_ceiling() {
    let cfg = sample();
    let c = compute_ceilings(&cfg);
    for t in &cfg.tasks {
        for &r in &t.shared {
            assert!(c[r] >= t.priority);
        }
    }
}

#[test]
fn single_accessor_ceiling_is_own_priority() {
    let cfg = AppConfig { core: 0, tasks: vec![hw(4, 0, vec![0])], n_resources: 1 };
    assert_eq!(compute_ceilings(&cfg), vec![4]);
}

#[test]
fn empty_configuration_has_empty_table() {
    let cfg = AppConfig { core: 1, tasks: Vec::new(), n_resources: 0 };
    assert_eq!(compute_ceilings(&cfg), Vec::<u8>::new());
    assert_eq!(validate(&cfg), Ok(()));
}

#[test]
fn unknown_resources_are_skipped_in_table() {
    let cfg = AppConfig { core: 0, tasks: vec![hw(2, 0, vec![0, 9])], n_resources: 1 };
    assert_eq!(compute_ceilings(&cfg), vec![2]);
}

#[test]
fn validate_accepts_sample() {
    assert_eq!(validate(&sample()), Ok(()));
}

#[test]
fn validate_reports_unknown_resource() {
    let cfg = AppConfig { core: 0, tasks: vec![hw(1, 0, vec![0]), hw(2, 1, vec![7])], n_resources: 1 };
    assert_eq!(validate(&cfg), Err(ConfigError::UnknownResource { task: 1, resource: 7 }));
}

#[test]
fn validate_reports_unknown_resource_before_duplicate_line() {
    let cfg = AppConfig { core: 0, tasks: vec![hw(1, 0, vec![]), hw(2, 0, vec![3])], n_resources: 1 };
    assert_eq!(validate(&cfg), Err(ConfigError::UnknownResource { task: 1, resource: 3 }));
}

#[test]
fn validate_reports_duplicate_hardware_line() {
    let cfg = AppConfig { core: 0, tasks: vec![hw(1, 2, vec![]), hw(2, 2, vec![])], n_resources: 0 };
    assert_eq!(validate(&cfg), Err(ConfigError::DuplicateLine { line: 2 }));
}

#[test]
fn validate_reports_hardware_line_used_as_dispatcher() {
    let cfg = AppConfig { core: 0, tasks: vec![sw(1, 4, 1, vec![]), hw(2, 4, vec![])], n_resources: 0 };
    assert_eq!(validate(&cfg), Err(ConfigError::DuplicateLine { line: 4 }));
}

#[test]
fn software_tasks_may_share_a_dispatcher_line() {
    let cfg = AppConfig { core: 0, tasks: vec![sw(1, 4, 1, vec![]), sw(2, 4, 1, vec![])], n_resources: 0 };
    assert_eq!(validate(&cfg), Ok(()));
}

#[test]
fn check_ceilings_accepts_computed_table() {
    let cfg = sample();
    let c = compute_ceilings(&cfg);
    assert_eq!(check_ceilings(&cfg, &c), Ok(()));
}

#[test]
fn check_ceilings_reports_too_low() {
    let cfg = sample();
    let c = vec![2, 2, 2, 0, 0];
    assert_eq!(check_ceilings(&cfg, &c), Err(ConfigError::CeilingTooLow { resource: 1, task: 1 }));
}

#[test]
fn check_ceilings_reports_resource_missing_from_table() {
    let cfg = sample();
    let c = vec![2, 3];
    assert_eq!(check_ceilings(&cfg, &c), Err(ConfigError::UnknownResource { task: 2, resource: 2 }));
}
