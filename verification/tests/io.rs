use esp_start::io::interrupt::debounce::ButtonDebounce;
use esp_start::io::interrupt::states::{EventQueue, InputState};
use esp_start::io::screen::ScreenCommand;
use esp_start::io::{
    next_input_event, primary_button_is_pressed, ButtonId, InputEvent, PinConfig,
    PRIMARY_BUTTON_DEBOUNCE_MS,
};

const PRESSED: InputEvent = InputEvent::ButtonPressed(ButtonId::Primary);
const RELEASED: InputEvent = InputEvent::ButtonReleased(ButtonId::Primary);

#[test]
fn event_queue_is_first_in_first_out() {
    let mut q = EventQueue::new();
    assert_eq!(q.pop(), None);
    q.push(PRESSED);
    q.push(RELEASED);
    q.push(PRESSED);
    assert_eq!(q.pop(), Some(PRESSED));
    assert_eq!(q.pop(), Some(RELEASED));
    q.push(RELEASED);
    assert_eq!(q.pop(), Some(PRESSED));
    assert_eq!(q.pop(), Some(RELEASED));
    assert_eq!(q.pop(), None);
}

#[test]
fn event_queue_drops_events_when_full() {
    let mut q = EventQueue::new();
    for i in 0..10 {
        q.push(if i % 2 == 0 { PRESSED } else { RELEASED });
    }
    let mut out = Vec::new();
    while let Some(e) = q.pop() {
        out.push(e);
    }
    assert_eq!(out.len(), 8);
    for (i, e) in out.iter().enumerate() {
        assert_eq!(*e, if i % 2 == 0 { PRESSED } else { RELEASED });
    }
}

#[test]
fn event_queue_wraps_around_its_ring() {
    let mut q = EventQueue::new();
    for round in 0..5 {
        for _ in 0..6 {
            q.push(PRESSED);
        }
        q.push(RELEASED);
        for _ in 0..6 {
            assert_eq!(q.pop(), Some(PRESSED), "round {round}");
        }
        assert_eq!(q.pop(), Some(RELEASED));
        assert_eq!(q.pop(), None);
    }
}

#[test]
fn debounce_waits_for_quiet_period() {
    assert_eq!(PRIMARY_BUTTON_DEBOUNCE_MS, 25);
    let mut d = ButtonDebounce::new();
    d.configure(false, 1_000);
    assert_eq!(d.take_event(2_000), None);
    d.record_edge(true, 10_000);
    assert_eq!(d.take_event(10_000), None);
    assert_eq!(d.take_event(34_999), None);
    assert_eq!(d.take_event(35_000), Some(PRESSED));
    // Reported once only.
    assert_eq!(d.take_event(90_000), None);
}

#[test]
fn debounce_ignores_bounce_back_to_stable_level() {
    let mut d = ButtonDebounce::new();
    d.configure(false, 0);
    d.record_edge(true, 1_000);
    d.record_edge(false, 2_000);
    assert_eq!(d.take_event(50_000), None);
    d.record_edge(true, 60_000);
    d.record_edge(false, 61_000);
    d.record_edge(true, 62_000);
    assert_eq!(d.take_event(80_000), None);
    assert_eq!(d.take_event(87_000), Some(PRESSED));
    d.record_edge(false, 100_000);
    assert_eq!(d.take_event(125_000), Some(RELEASED));
}

#[test]
fn input_state_queues_debounced_events() {
    let mut s = InputState::new();
    s.init_primary_button(false, 0);
    assert!(!primary_button_is_pressed(&mut s, 1));
    s.record_primary_button_edge(true, 100);
    assert_eq!(next_input_event(&mut s, 200), None);
    assert!(primary_button_is_pressed(&mut s, 25_100));
    s.record_primary_button_edge(false, 30_000);
    assert!(primary_button_is_pressed(&mut s, 40_000));
    assert_eq!(next_input_event(&mut s, 60_000), Some(PRESSED));
    assert_eq!(next_input_event(&mut s, 60_001), Some(RELEASED));
    assert_eq!(next_input_event(&mut s, 60_002), None);
    assert!(!primary_button_is_pressed(&mut s, 60_003));
}

#[test]
fn input_state_starts_with_configured_level() {
    let mut s = InputState::new();
    s.init_primary_button(true, 5);
    assert!(primary_button_is_pressed(&mut s, 5));
    assert_eq!(next_input_event(&mut s, 100_000), None);
}

#[test]
fn pin_configs_are_distinct() {
    assert_ne!(PinConfig::PullUp, PinConfig::PullDown);
    assert_ne!(PinConfig::PullDown, PinConfig::Floating);
}

#[test]
fn first_driver_screen_command_bytes() {
    assert_eq!(ScreenCommand::BasicCommands.value(), 0x20);
    assert_eq!(ScreenCommand::ExtendedCommands.value(), 0x21);
    assert_eq!(ScreenCommand::SetContrast.value(), 0x80);
    assert_eq!(ScreenCommand::SetTempCoeff.value(), 0x04);
    assert_eq!(ScreenCommand::SetBias.value(), 0x14);
    assert_eq!(ScreenCommand::NormalDisplayMode.value(), 0x0C);
    assert_eq!(ScreenCommand::PixelTestMode.value(), 0x09);
}

#[test]
fn button_is_pressed_by_id() {
    let mut s = InputState::new();
    s.init_primary_button(false, 0);
    assert!(!esp_start::io::interrupt::button_is_pressed(&mut s, ButtonId::Primary, 10));
    s.record_primary_button_edge(true, 100);
    assert!(!esp_start::io::interrupt::button_is_pressed(&mut s, ButtonId::Primary, 24_000));
    assert!(esp_start::io::interrupt::button_is_pressed(&mut s, ButtonId::Primary, 25_100));
}
