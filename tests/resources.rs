use rtic_srp::ceiling::{AppConfig, TaskDesc, TaskKind};
use rtic_srp::controller::Controller;
use rtic_srp::resources::{ResourceProxy, SharedResources};

fn config() -> AppConfig {
    AppConfig {
        core: 0,
        tasks: vec![
            TaskDesc { priority: 1, kind: TaskKind::Hardware { line: 0 }, shared: vec![0, 5, 1] },
            TaskDesc { priority: 2, kind: TaskKind::Hardware { line: 1 }, shared: vec![0] },
        ],
        n_resources: 2,
    }
}

#[test]
fn proxies_carry_task_priority_and_ceiling() {
    let cfg = config();
    let shared = SharedResources::new(&cfg);
    assert_eq!(shared.num_resources(), 2);
    assert_eq!(shared.ceiling(0), 2);
    assert_eq!(shared.ceiling(1), 1);
    let p0 = shared.generate_shared_for_task(&cfg, 0);
    assert_eq!(
        p0,
        vec![
            ResourceProxy { resource: 0, priority: 1, ceiling: 2 },
            ResourceProxy { resource: 1, priority: 1, ceiling: 1 },
        ]
    );
    let p1 = shared.generate_shared_for_task(&cfg, 1);
    assert_eq!(p1, vec![ResourceProxy { resource: 0, priority: 2, ceiling: 2 }]);
}

#[test]
fn proxy_lock_masks_sharing_tasks() {
    let cfg = config();
    let shared = SharedResources::new(&cfg);
    let proxy = shared.generate_shared_for_task(&cfg, 0)[0];
    let mut ctrl = Controller::new(2);
    let mut value: u32 = 0;
    let t = proxy.lock(&mut ctrl, &mut value, |v: &mut u32, c: &mut Controller| {
        *v += 5;
        c.read_threshold()
    });
    assert_eq!(t, 2);
    assert_eq!(value, 5);
    assert_eq!(ctrl.read_threshold(), 0);
}

#[test]
fn proxy_lock_at_own_priority_takes_fast_path() {
    let cfg = config();
    let shared = SharedResources::new(&cfg);
    let proxy = shared.generate_shared_for_task(&cfg, 1)[0];
    let mut ctrl = Controller::new(2);
    let mut value: u32 = 1;
    let t = proxy.lock(&mut ctrl, &mut value, |v: &mut u32, c: &mut Controller| {
        *v *= 3;
        c.read_threshold()
    });
    assert_eq!(t, 0);
    assert_eq!(value, 3);
}

#[test]
fn proxy_for_any_priority_uses_resource_ceiling() {
    let shared = SharedResources::new(&config());
    assert_eq!(shared.proxy(1, 0), ResourceProxy { resource: 1, priority: 0, ceiling: 1 });
}
