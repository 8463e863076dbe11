use esp_start::leds::{FadeState, LedAction, LedMode, LedState};

#[test]
fn led_mode_cycles_through_three_modes() {
    assert_eq!(LedMode::Off.next(), LedMode::Blink);
    assert_eq!(LedMode::Blink.next(), LedMode::Fade);
    assert_eq!(LedMode::Fade.next(), LedMode::Off);
    for m in [LedMode::Off, LedMode::Blink, LedMode::Fade] {
        assert_eq!(m.next().next().next(), m);
    }
}

#[test]
fn fade_rises_to_100_then_falls_to_0() {
    let mut f = FadeState::new(7);
    assert_eq!((f.duty, f.descending, f.last_timer_count), (0, false, 7));
    let mut duties = Vec::new();
    for _ in 0..22 {
        f.advance();
        duties.push(f.duty);
    }
    assert_eq!(
        duties,
        vec![10, 20, 30, 40, 50, 60, 70, 80, 90, 100, 90, 80, 70, 60, 50, 40, 30, 20, 10, 0, 10, 20]
    );
    assert_eq!(f.last_timer_count, 7);
}

#[test]
fn fade_is_periodic_with_period_twenty() {
    let mut f = FadeState::new(0);
    f.advance();
    for _ in 0..5 {
        f.advance();
    }
    let (d, b) = (f.duty, f.descending);
    for _ in 0..20 {
        f.advance();
    }
    assert_eq!((f.duty, f.descending), (d, b));
}

#[test]
fn fade_reset_restarts_rising_from_zero() {
    let mut f = FadeState::new(1);
    for _ in 0..13 {
        f.advance();
    }
    f.reset(99);
    assert_eq!((f.duty, f.descending, f.last_timer_count), (0, false, 99));
}

#[test]
fn fade_duties_change_by_ten_and_stay_in_range() {
    let mut f = FadeState::new(0);
    for _ in 0..100 {
        let before = f.duty as i32;
        f.advance();
        let after = f.duty as i32;
        assert!(after <= 100 && after % 10 == 0);
        assert_eq!((after - before).abs(), 10);
    }
}

#[test]
fn led_state_off_does_nothing() {
    let mut s = LedState::new(5);
    assert_eq!(s.mode(), LedMode::Off);
    assert_eq!(s.update(100), LedAction::Nothing);
}

#[test]
fn led_blink_toggles_on_odd_elapsed_ticks() {
    let mut s = LedState::new(0);
    assert_eq!(s.cycle_mode(10), LedMode::Blink);
    assert_eq!(s.update(10), LedAction::Nothing);
    assert_eq!(s.update(11), LedAction::ToggleBlink);
    assert_eq!(s.update(13), LedAction::Nothing);
    assert_eq!(s.update(16), LedAction::ToggleBlink);
}

#[test]
fn led_blink_elapsed_ticks_wrap_around() {
    let mut s = LedState::new(0);
    s.cycle_mode(u32::MAX);
    // From u32::MAX to 0 is one tick.
    assert_eq!(s.update(0), LedAction::ToggleBlink);
}

#[test]
fn led_fade_sets_complementary_duties() {
    let mut s = LedState::new(0);
    s.cycle_mode(0);
    assert_eq!(s.cycle_mode(3), LedMode::Fade);
    assert_eq!(s.update(3), LedAction::Nothing);
    assert_eq!(s.update(5), LedAction::SetFadeDuties(20, 80));
    assert_eq!(s.update(17), LedAction::SetFadeDuties(60, 40));
    match s.update(40) {
        LedAction::SetFadeDuties(a, b) => assert_eq!(a as u32 + b as u32, 100),
        other => panic!("unexpected {:?}", other),
    }
    assert_eq!(s.fade_duty() % 10, 0);
}

#[test]
fn led_cycle_mode_restarts_fade() {
    let mut s = LedState::new(0);
    s.cycle_mode(0);
    s.cycle_mode(0);
    s.update(4);
    assert_eq!(s.fade_duty(), 40);
    assert_eq!(s.cycle_mode(9), LedMode::Off);
    assert_eq!(s.fade_duty(), 0);
}

#[test]
fn fade_from_start_is_a_triangle_wave_of_period_twenty() {
    let mut f = FadeState::new(7);
    let mut duties = vec![f.duty];
    for _ in 0..40 {
        f.advance();
        duties.push(f.duty);
    }
    let first: Vec<u8> = vec![0, 10, 20, 30, 40, 50, 60, 70, 80, 90, 100, 90, 80, 70, 60, 50, 40, 30, 20, 10, 0];
    assert_eq!(&duties[..21], &first[..]);
    for k in 1..=20 {
        assert_eq!(duties[k + 20], duties[k]);
    }
}

#[test]
fn blink_led_is_lit_exactly_after_an_odd_number_of_ticks() {
    let mut s = LedState::new(100);
    s.cycle_mode(100);
    let mut lit = false;
    for t in [101u32, 101, 104, 105, 109, 112] {
        if s.update(t) == LedAction::ToggleBlink {
            lit = !lit;
        }
        assert_eq!(lit, (t - 100) % 2 == 1);
    }
    let mut w = LedState::new(u32::MAX - 1);
    w.cycle_mode(u32::MAX - 1);
    assert_eq!(w.update(1), LedAction::ToggleBlink);
}
