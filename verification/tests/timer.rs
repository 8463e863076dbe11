use esp_start::timer::{event_counter, TimerCounter};

#[test]
fn timer_counts_interrupts() {
    let mut c = TimerCounter::new();
    assert_eq!(event_counter(&c), 0);
    c.timer_handler();
    c.timer_handler();
    assert_eq!(event_counter(&c), 2);
    for _ in 0..8 {
        c.timer_handler();
    }
    assert_eq!(event_counter(&c), 10);
}

#[test]
fn counter_counts_handler_runs() {
    let mut c = TimerCounter::new();
    let a = event_counter(&c);
    for _ in 0..1000 {
        c.timer_handler();
    }
    assert_eq!(event_counter(&c).wrapping_sub(a), 1000);
}
