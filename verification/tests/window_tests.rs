use sysmon::window::RollingWindow;

#[test]
fn new_window_is_zero_filled() {
    let w = RollingWindow::new(5);
    assert_eq!(w.len(), 5);
    assert_eq!(w.snapshot(), vec![0, 0, 0, 0, 0]);
}

#[test]
fn length_is_fixed_before_and_after_every_push() {
    let mut w = RollingWindow::new(4);
    for v in 1..=10u64 {
        assert_eq!(w.len(), 4);
        w.push(v);
        assert_eq!(w.len(), 4);
    }
}

#[test]
fn push_evicts_oldest_and_appends() {
    let mut w = RollingWindow::new(3);
    w.push(1);
    assert_eq!(w.snapshot(), vec![0, 0, 1]);
    w.push(2);
    assert_eq!(w.snapshot(), vec![0, 1, 2]);
    w.push(3);
    assert_eq!(w.snapshot(), vec![1, 2, 3]);
}

#[test]
fn after_enough_pushes_window_holds_last_values_in_order() {
    let mut w = RollingWindow::new(3);
    for v in [9u64, 8, 7, 6, 5] {
        w.push(v);
    }
    assert_eq!(w.snapshot(), vec![7, 6, 5]);
}

#[test]
fn default_capacity_matches_reference_behavior() {
    let w = RollingWindow::new(sysmon::cycle::WINDOW_LEN);
    assert_eq!(w.len(), 200);
}
