use rtic_srp::controller::{interrupt_enable, Controller};
use rtic_srp::lock::{lock, may_preempt, raise, restore};

#[test]
fn raise_path_lifts_threshold_to_ceiling_and_restores() {
    let mut ctrl = Controller::new(4);
    let mut counter: u32 = 0;
    let seen = lock(&mut ctrl, &mut counter, 1, 3, |c: &mut u32, inner: &mut Controller| {
        *c += 1;
        inner.read_threshold()
    });
    assert_eq!(seen, 3);
    assert_eq!(counter, 1);
    assert_eq!(ctrl.read_threshold(), 0);
}

#[test]
fn raise_never_lowers_a_higher_threshold() {
    let mut ctrl = Controller::new(1);
    ctrl.write_threshold(5);
    let mut x: u8 = 0;
    let seen = lock(&mut ctrl, &mut x, 1, 3, |_x: &mut u8, inner: &mut Controller| inner.read_threshold());
    assert_eq!(seen, 5);
    assert_eq!(ctrl.read_threshold(), 5);
}

#[test]
fn fast_path_leaves_threshold_untouched() {
    let mut ctrl = Controller::new(1);
    ctrl.write_threshold(1);
    let mut v: Vec<u32> = Vec::new();
    let seen = lock(&mut ctrl, &mut v, 3, 3, |v: &mut Vec<u32>, inner: &mut Controller| {
        v.push(7);
        inner.read_threshold()
    });
    assert_eq!(seen, 1);
    assert_eq!(v, vec![7]);
    assert_eq!(ctrl.read_threshold(), 1);
}

#[test]
fn fast_path_and_raise_path_give_same_result() {
    let body = |x: &mut u32, _c: &mut Controller| {
        *x = *x * 2 + 1;
        *x
    };
    let mut fast_ctrl = Controller::new(2);
    let mut fast_res: u32 = 4;
    let fast = lock(&mut fast_ctrl, &mut fast_res, 2, 2, body);
    let mut slow_ctrl = Controller::new(2);
    let mut slow_res: u32 = 4;
    let slow = lock(&mut slow_ctrl, &mut slow_res, 1, 2, body);
    assert_eq!(fast, 9);
    assert_eq!(fast, slow);
    assert_eq!(fast_res, slow_res);
    assert_eq!(fast_ctrl.read_threshold(), slow_ctrl.read_threshold());
    assert_eq!(fast_ctrl.read_threshold(), 0);
}

#[test]
fn nested_locks_restore_threshold_in_lifo_order() {
    let mut ctrl = Controller::new(1);
    let mut a: u32 = 0;
    let mut trace: Vec<u8> = Vec::new();
    let trace_ref = &mut trace;
    lock(&mut ctrl, &mut a, 1, 2, |a: &mut u32, c: &mut Controller| {
        trace_ref.push(c.read_threshold());
        let mut b: u32 = 0;
        lock(c, &mut b, 1, 4, |b: &mut u32, c2: &mut Controller| {
            trace_ref.push(c2.read_threshold());
            let mut d: u32 = 0;
            lock(c2, &mut d, 1, 3, |_d: &mut u32, c3: &mut Controller| {
                trace_ref.push(c3.read_threshold());
            });
            trace_ref.push(c2.read_threshold());
            *b += 1;
        });
        trace_ref.push(c.read_threshold());
        *a += 1;
    });
    assert_eq!(trace, vec![2, 4, 4, 4, 2]);
    assert_eq!(ctrl.read_threshold(), 0);
    assert_eq!(a, 1);
}

#[test]
fn no_inversion_inside_lock() {
    let mut ctrl = Controller::new(1);
    interrupt_enable(&mut ctrl);
    let mut x: u32 = 0;
    let outcome = lock(&mut ctrl, &mut x, 1, 3, |_x: &mut u32, c: &mut Controller| {
        let mut v: Vec<bool> = Vec::new();
        for p in 0u8..=5 {
            v.push(may_preempt(c, 1, p));
        }
        v
    });
    assert_eq!(outcome, vec![false, false, false, false, true, true]);
    assert!(may_preempt(&ctrl, 1, 2));
}

#[test]
fn raise_and_restore_pair() {
    let mut ctrl = Controller::new(1);
    ctrl.write_threshold(2);
    let saved = raise(&mut ctrl, 1, 6);
    assert_eq!(saved, 2);
    assert_eq!(ctrl.read_threshold(), 6);
    restore(&mut ctrl, saved, 1, 6);
    assert_eq!(ctrl.read_threshold(), 2);
    let saved = raise(&mut ctrl, 6, 6);
    assert_eq!(ctrl.read_threshold(), 2);
    restore(&mut ctrl, saved, 6, 6);
    assert_eq!(ctrl.read_threshold(), 2);
}

#[test]
fn nothing_preempts_while_interrupts_are_masked() {
    let ctrl = Controller::new(1);
    assert!(!may_preempt(&ctrl, 0, 9));
}
