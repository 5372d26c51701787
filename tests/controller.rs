use rtic_srp::controller::{
    disable, enable, interrupt_disable, interrupt_enable, interrupt_free, pend, unpend, Controller, Polarity, Trigger,
};

#[test]
fn new_controller_is_reset() {
    let c = Controller::new(3);
    assert_eq!(c.num_lines(), 3);
    assert_eq!(c.read_threshold(), 0);
    assert!(!c.interrupts_enabled());
    for l in 0..3 {
        assert!(!c.is_enabled(l));
        assert!(!c.is_pending(l));
        assert_eq!(c.level(l), 0);
    }
}

#[test]
fn enable_configures_edge_positive_level() {
    let mut c = Controller::new(2);
    enable(&mut c, 1, 4);
    assert!(c.is_enabled(1));
    assert_eq!(c.level(1), 4);
    assert_eq!(c.lines[1].trigger, Trigger::Edge);
    assert_eq!(c.lines[1].polarity, Polarity::Positive);
    assert!(!c.is_enabled(0));
    disable(&mut c, 1);
    assert!(!c.is_enabled(1));
    assert_eq!(c.level(1), 4);
}

#[test]
fn pend_is_idempotent_and_unpend_clears() {
    let mut c = Controller::new(2);
    pend(&mut c, 0);
    pend(&mut c, 0);
    assert!(c.is_pending(0));
    assert!(!c.is_pending(1));
    unpend(&mut c, 0);
    assert!(!c.is_pending(0));
}

#[test]
fn write_threshold_returns_previous() {
    let mut c = Controller::new(0);
    assert_eq!(c.write_threshold(3), 0);
    assert_eq!(c.write_threshold(1), 3);
    assert_eq!(c.read_threshold(), 1);
}

#[test]
fn interrupt_free_masks_then_unmasks() {
    let mut c = Controller::new(1);
    interrupt_enable(&mut c);
    let inside = interrupt_free(&mut c, |inner: &mut Controller| {
        pend(inner, 0);
        inner.interrupts_enabled()
    });
    assert!(!inside);
    assert!(c.interrupts_enabled());
    assert!(c.is_pending(0));
}

#[test]
fn interrupt_free_unmasks_even_if_masked_before() {
    let mut c = Controller::new(1);
    interrupt_disable(&mut c);
    let t = interrupt_free(&mut c, |inner: &mut Controller| inner.write_threshold(4));
    assert_eq!(t, 0);
    assert_eq!(c.read_threshold(), 4);
    assert!(c.interrupts_enabled());
}
