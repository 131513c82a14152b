use terminal_player::control::{
    evaluate_capacity, must_wait, set_and_maybe_notify, should_publish, ControlSignal,
    LOW_WATERMARK,
};

#[test]
fn stop_at_low_watermark() {
    assert_eq!(LOW_WATERMARK, 10);
    let e = evaluate_capacity(300, 290, false);
    assert_eq!(e.action, ControlSignal::Stop);
    assert!(!e.reached_max_capacity);
    let e = evaluate_capacity(300, 300, true);
    assert_eq!(e.action, ControlSignal::Stop);
    assert!(e.reached_max_capacity);
}

#[test]
fn go_above_low_watermark() {
    let e = evaluate_capacity(300, 289, false);
    assert_eq!(e.action, ControlSignal::Go);
    assert!(!e.reached_max_capacity);
    let e = evaluate_capacity(300, 0, false);
    assert_eq!(e.action, ControlSignal::Go);
}

#[test]
fn refill_flag_clears_at_half_capacity() {
    let e = evaluate_capacity(300, 150, true);
    assert_eq!(e.action, ControlSignal::Go);
    assert!(!e.reached_max_capacity);
    let e = evaluate_capacity(300, 151, true);
    assert_eq!(e.action, ControlSignal::Go);
    assert!(e.reached_max_capacity);
}

#[test]
fn stop_holds_while_few_slots_are_free() {
    let mut len: usize = 300;
    while len >= 290 {
        assert_eq!(evaluate_capacity(300, len, true).action, ControlSignal::Stop);
        assert_eq!(evaluate_capacity(300, len, false).action, ControlSignal::Stop);
        len -= 1;
    }
}

#[test]
fn small_queue_resumes_only_at_half() {
    let capacity: usize = 22;
    let mut len: usize = 0;
    while len <= capacity {
        let e = evaluate_capacity(capacity, len, false);
        if e.action == ControlSignal::Go {
            assert!(capacity - len >= capacity / 2);
        }
        len += 1;
    }
}

#[test]
fn stop_is_always_published() {
    assert!(should_publish(ControlSignal::Stop, ControlSignal::Go));
    assert!(should_publish(ControlSignal::Stop, ControlSignal::Stop));
    assert!(should_publish(ControlSignal::Go, ControlSignal::Stop));
    assert!(!should_publish(ControlSignal::Go, ControlSignal::Go));
}

#[test]
fn shared_signal_follows_the_action() {
    let mut shared = ControlSignal::Go;
    assert!(set_and_maybe_notify(&mut shared, ControlSignal::Stop));
    assert_eq!(shared, ControlSignal::Stop);
    assert!(set_and_maybe_notify(&mut shared, ControlSignal::Stop));
    assert_eq!(shared, ControlSignal::Stop);
    assert!(set_and_maybe_notify(&mut shared, ControlSignal::Go));
    assert_eq!(shared, ControlSignal::Go);
    assert!(!set_and_maybe_notify(&mut shared, ControlSignal::Go));
    assert_eq!(shared, ControlSignal::Go);
}

#[test]
fn decoding_waits_only_on_stop() {
    assert!(must_wait(ControlSignal::Stop));
    assert!(!must_wait(ControlSignal::Go));
}
