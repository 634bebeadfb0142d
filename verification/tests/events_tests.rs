use rfheadless::events::EventLoop;

#[test]
fn microtask_runs_before_zero_delay_timer() {
    let mut el = EventLoop::new();
    let _t = el.set_timeout(2, 0);
    el.queue_microtask(1);
    let work = el.run_until_idle();
    assert_eq!(work, vec![1, 2]);
}

#[test]
fn timer_persists_across_drains_and_fires_once() {
    let mut el = EventLoop::new();
    let _t = el.set_timeout(7, 100);
    // Not yet due: nothing to run.
    assert_eq!(el.run_until_idle(), Vec::<u64>::new());
    el.tick(200);
    assert_eq!(el.run_until_idle(), vec![7]);
    // Fired exactly once: a further drain hands back nothing.
    assert_eq!(el.run_until_idle(), Vec::<u64>::new());
}

#[test]
fn timers_fire_in_due_then_registration_order() {
    let mut el = EventLoop::new();
    let _a = el.set_timeout(10, 50);
    let _b = el.set_timeout(20, 10);
    let _c = el.set_timeout(30, 50);
    el.tick(100);
    assert_eq!(el.run_until_idle(), vec![20, 10, 30]);
}

#[test]
fn cleared_timer_never_fires() {
    let mut el = EventLoop::new();
    let t = el.set_timeout(5, 10);
    el.clear_timer(t);
    el.tick(100);
    assert_eq!(el.run_until_idle(), Vec::<u64>::new());
}

#[test]
fn interval_reschedules_after_firing() {
    let mut el = EventLoop::new();
    let t = el.set_interval(9, 50);
    el.tick(50);
    assert_eq!(el.run_until_idle(), vec![9]);
    el.tick(50);
    assert_eq!(el.run_until_idle(), vec![9]);
    el.clear_timer(t);
    el.tick(50);
    assert_eq!(el.run_until_idle(), Vec::<u64>::new());
}

#[test]
fn zero_period_interval_waits_for_the_next_tick() {
    let mut el = EventLoop::new();
    let _t = el.set_interval(4, 0);
    // Due immediately, but the reschedule lands strictly after now.
    assert_eq!(el.run_until_idle(), vec![4]);
    assert_eq!(el.run_until_idle(), Vec::<u64>::new());
    el.tick(1);
    assert_eq!(el.run_until_idle(), vec![4]);
}

#[test]
fn microtasks_drain_in_queue_order() {
    let mut el = EventLoop::new();
    el.queue_microtask(1);
    el.queue_microtask(2);
    el.queue_microtask(3);
    assert_eq!(el.run_until_idle(), vec![1, 2, 3]);
}
