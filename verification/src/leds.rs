use vstd::prelude::*;

verus! {

/// Timer period, in milliseconds, at which the LED demo is meant to be updated.
pub const UPDATE_INTERVAL_MS: u64 = 300;

/// The three operating modes of the LED demo.
#[derive(Clone, Copy, Debug, PartialEq, Eq, Structural)]
pub enum LedMode {
    Off,
    Blink,
    Fade,
}

/// The mode that follows `m` in the cycle `Off -> Blink -> Fade -> Off`.
pub open spec fn next_mode(m: LedMode) -> LedMode {
    match m {
        LedMode::Off => LedMode::Blink,
        LedMode::Blink => LedMode::Fade,
        LedMode::Fade => LedMode::Off,
    }
}

impl LedMode {
    /// Returns the next mode of the cycle `Off -> Blink -> Fade -> Off`.
    pub fn next(self) -> (r: Self)
        ensures
            r == next_mode(self),
    {
        match self {
            LedMode::Off => LedMode::Blink,
            LedMode::Blink => LedMode::Fade,
            LedMode::Fade => LedMode::Off,
        }
    }
}

/// Cycling through the modes three times gives back the mode one started from.
pub proof fn lemma_mode_cycle(m: LedMode)
    ensures
        next_mode(next_mode(next_mode(m))) == m,
        next_mode(m) != m,
{
}

/// The triangle-wave fade: the duty cycle (in percent) climbs by 10 up to 100,
/// then falls by 10 down to 0, and so on.
pub struct FadeState {
    pub duty: u8,
    pub descending: bool,
    pub last_timer_count: u32,
}

/// One fade step on the pair (duty, descending).
pub open spec fn fade_step(duty: u8, descending: bool) -> (u8, bool) {
    if descending {
        if duty == 0 {
            (10, false)
        } else if duty >= 10 {
            ((duty - 10) as u8, true)
        } else {
            (0, true)
        }
    } else if duty >= 100 {
        (90, true)
    } else {
        ((duty + 10) as u8, false)
    }
}

/// `n` fade steps from (duty, descending).
pub open spec fn fade_steps(duty: u8, descending: bool, n: nat) -> (u8, bool)
    decreases n,
{
    if n == 0 {
        (duty, descending)
    } else {
        let s = fade_steps(duty, descending, (n - 1) as nat);
        fade_step(s.0, s.1)
    }
}

/// A duty that the fade can reach: a multiple of 10 in 0..=100.
pub open spec fn valid_duty(duty: u8) -> bool {
    duty <= 100 && duty % 10 == 0
}

/// The states that the fade goes through forever once it has started:
/// rising 10..=100, or falling 0..=90.
pub open spec fn on_fade_cycle(duty: u8, descending: bool) -> bool {
    valid_duty(duty) && if descending { duty <= 90 } else { duty >= 10 }
}

impl FadeState {
    /// A fade that starts at duty 0, rising, at the given timer count.
    pub fn new(timer_count: u32) -> (r: Self)
        ensures
            r.duty == 0,
            !r.descending,
            r.last_timer_count == timer_count,
    {
        FadeState { duty: 0, descending: false, last_timer_count: timer_count }
    }

    /// Restarts the fade at duty 0, rising, at the given timer count.
    pub fn reset(&mut self, timer_count: u32)
        ensures
            final(self).duty == 0,
            !final(self).descending,
            final(self).last_timer_count == timer_count,
        no_unwind
    {
        self.duty = 0;
        self.descending = false;
        self.last_timer_count = timer_count;
    }

    /// Moves the fade one step along the triangle wave.
    pub fn advance(&mut self)
        ensures
            (final(self).duty, final(self).descending) == fade_step(old(self).duty, old(self).descending),
            final(self).last_timer_count == old(self).last_timer_count,
    {
        if self.descending {
            if self.duty == 0 {
                self.descending = false;
                self.duty = 10;
            } else {
                self.duty = self.duty.saturating_sub(10);
            }
        } else if self.duty >= 100 {
            self.descending = true;
            self.duty = 90;
        } else {
            self.duty = self.duty + 10;
        }
    }
}

/// A fade step keeps the duty a multiple of 10 within 0..=100 and moves it by exactly 10.
pub proof fn lemma_fade_step_valid(duty: u8, descending: bool)
    requires
        valid_duty(duty),
    ensures
        valid_duty(fade_step(duty, descending).0),
        fade_step(duty, descending).0 == duty + 10 || fade_step(duty, descending).0 == duty - 10,
        on_fade_cycle(fade_step(duty, descending).0, fade_step(duty, descending).1),
{
}

/// Any number of fade steps keeps the duty a multiple of 10 within 0..=100.
pub proof fn lemma_fade_steps_valid(duty: u8, descending: bool, n: nat)
    requires
        valid_duty(duty),
    ensures
        valid_duty(fade_steps(duty, descending, n).0),
    decreases n,
{
    if n > 0 {
        lemma_fade_steps_valid(duty, descending, (n - 1) as nat);
        let s = fade_steps(duty, descending, (n - 1) as nat);
        lemma_fade_step_valid(s.0, s.1);
    }
}

/// The two fading LEDs always get complementary duties: after any number of fade
/// steps from a valid duty, the first LED's duty and `100 -` it add up to 100.
pub proof fn lemma_fade_duties_complementary(duty: u8, descending: bool, n: nat)
    requires
        valid_duty(duty),
    ensures
        fade_steps(duty, descending, n).0 <= 100,
        fade_steps(duty, descending, n).0 + ((100 - fade_steps(duty, descending, n).0) as u8) == 100,
{
    lemma_fade_steps_valid(duty, descending, n);
}

/// The position of a cycle state along the twenty-step triangle wave.
pub open spec fn fade_position(duty: u8, descending: bool) -> int {
    if !descending {
        duty / 10 - 1
    } else {
        19 - duty / 10
    }
}

/// The cycle state at a position of the triangle wave.
pub open spec fn fade_at(p: int) -> (u8, bool) {
    if p < 10 {
        (((p + 1) * 10) as u8, false)
    } else {
        (((19 - p) * 10) as u8, true)
    }
}

proof fn lemma_fade_position(duty: u8, descending: bool)
    requires
        on_fade_cycle(duty, descending),
    ensures
        0 <= fade_position(duty, descending) < 20,
        fade_at(fade_position(duty, descending)) == (duty, descending),
        fade_step(duty, descending) == fade_at((fade_position(duty, descending) + 1) % 20),
{
}

proof fn lemma_fade_at_on_cycle(p: int)
    requires
        0 <= p < 20,
    ensures
        on_fade_cycle(fade_at(p).0, fade_at(p).1),
        fade_position(fade_at(p).0, fade_at(p).1) == p,
{
}

proof fn lemma_mod_succ(a: int, n: int)
    requires
        a >= 0,
        n >= 1,
    ensures
        ((a + n - 1) % 20 + 1) % 20 == (a + n) % 20,
{
}

proof fn lemma_fade_steps_position(duty: u8, descending: bool, n: nat)
    requires
        on_fade_cycle(duty, descending),
    ensures
        fade_steps(duty, descending, n) == fade_at((fade_position(duty, descending) + n) % 20),
    decreases n,
{
    lemma_fade_position(duty, descending);
    let a = fade_position(duty, descending);
    if n > 0 {
        lemma_fade_steps_position(duty, descending, (n - 1) as nat);
        let p = (a + n - 1) % 20;
        assert(fade_steps(duty, descending, (n - 1) as nat) == fade_at(p));
        lemma_fade_at_on_cycle(p);
        let s = fade_at(p);
        lemma_fade_position(s.0, s.1);
        assert(fade_step(s.0, s.1) == fade_at((p + 1) % 20));
        lemma_mod_succ(a, n as int);
        assert(fade_steps(duty, descending, n) == fade_step(s.0, s.1));
    }
}

/// The fade is periodic: once on its cycle, twenty steps bring it back to the same state.
pub proof fn lemma_fade_period(duty: u8, descending: bool)
    requires
        on_fade_cycle(duty, descending),
    ensures
        fade_steps(duty, descending, 20) == (duty, descending),
{
    lemma_fade_position(duty, descending);
    lemma_fade_steps_position(duty, descending, 20);
    assert((fade_position(duty, descending) + 20) % 20 == fade_position(duty, descending));
}

proof fn lemma_fade_steps_shift(duty: u8, descending: bool, n: nat)
    ensures
        fade_steps(duty, descending, n + 1) == fade_steps(fade_step(duty, descending).0, fade_step(duty, descending).1, n),
    decreases n,
{
    let first = fade_step(duty, descending);
    let before = fade_steps(duty, descending, n);
    assert(fade_steps(duty, descending, n + 1) == fade_step(before.0, before.1));
    if n > 0 {
        lemma_fade_steps_shift(duty, descending, (n - 1) as nat);
        let prev = fade_steps(first.0, first.1, (n - 1) as nat);
        assert(fade_steps(first.0, first.1, n) == fade_step(prev.0, prev.1));
    }
}

/// The fade from its start (duty 0, rising): after `n` steps the duty is `10 * n` up
/// to 100 at step 10, then falls by 10 to 0 at step 20 (rising again after that); from
/// the first step on the wave repeats every twenty steps.
pub proof fn lemma_fade_from_start(n: nat)
    ensures
        n <= 20 ==> fade_steps(0, false, n).0 == (if n <= 10 { (n * 10) as int } else { (20 - n) * 10 }),
        n <= 20 ==> fade_steps(0, false, n).1 == (n > 10),
        n >= 1 ==> fade_steps(0, false, n + 20) == fade_steps(0, false, n),
{
    if n >= 1 {
        lemma_fade_steps_shift(0, false, (n - 1) as nat);
        lemma_fade_steps_position(10, false, (n - 1) as nat);
        lemma_fade_steps_shift(0, false, (n + 19) as nat);
        lemma_fade_steps_position(10, false, (n + 19) as nat);
        assert((n + 19) % 20 == (n - 1) % 20);
        if n <= 20 {
            assert((n - 1) % 20 == n - 1);
        }
    }
}

/// Timer ticks elapsed from `last` to `now` on a 32-bit counter that wraps around.
pub open spec fn elapsed_ticks(now: u32, last: u32) -> nat {
    if now >= last {
        (now - last) as nat
    } else {
        (now - last + 0x1_0000_0000) as nat
    }
}

/// The blink mark and the number of toggles after updates in blink mode at the timer
/// counts `ts`, in order, starting from the mark `last`: as `LedState::update` states
/// it, an update toggles the LED when an odd number of ticks elapsed since the mark,
/// and moves the mark to its count when any tick elapsed.
pub open spec fn blink_run(last: u32, ts: Seq<u32>) -> (u32, nat)
    decreases ts.len(),
{
    if ts.len() == 0 {
        (last, 0)
    } else {
        let prev = blink_run(last, ts.drop_last());
        let e = elapsed_ticks(ts.last(), prev.0);
        (if e == 0 { prev.0 } else { ts.last() }, prev.1 + if e % 2 == 1 { 1nat } else { 0nat })
    }
}

proof fn lemma_elapsed_parity(a: u32, b: u32)
    ensures
        elapsed_ticks(a, b) % 2 == (a - b) % 2,
        elapsed_ticks(a, b) == 0 <==> a == b,
{
}

/// The blinking LED is lit exactly when an odd number of ticks has passed: after
/// `cycle_mode` sets the mark to `c0` (switching the LED off) and a run of updates at
/// the counts `ts`, the mark is the last count, and the LED has toggled an odd number
/// of times exactly when the ticks elapsed from `c0` to that count are odd.
pub proof fn lemma_blink_parity(c0: u32, ts: Seq<u32>)
    ensures
        blink_run(c0, ts).0 == (if ts.len() == 0 { c0 } else { ts.last() }),
        blink_run(c0, ts).1 % 2 == elapsed_ticks(blink_run(c0, ts).0, c0) % 2,
    decreases ts.len(),
{
    if ts.len() > 0 {
        lemma_blink_parity(c0, ts.drop_last());
        let prev = blink_run(c0, ts.drop_last());
        let t = ts.last();
        lemma_elapsed_parity(t, prev.0);
        lemma_elapsed_parity(prev.0, c0);
        lemma_elapsed_parity(t, c0);
        assert((t - c0) % 2 == ((t - prev.0) + (prev.0 - c0)) % 2);
    } else {
        lemma_elapsed_parity(c0, c0);
    }
}

/// What the LED hardware must do after an update.
#[derive(Clone, Copy, Debug, PartialEq, Eq, Structural)]
pub enum LedAction {
    /// Leave the outputs as they are.
    Nothing,
    /// Toggle the blinking LED.
    ToggleBlink,
    /// Set the duty cycles (in percent) of the two complementary fading LEDs.
    SetFadeDuties(u8, u8),
}

/// The decisions of the LED demo: the current mode, the timer count at which the
/// blinking LED was last considered, and the fade state.
pub struct LedState {
    mode: LedMode,
    last_blink_timer_count: u32,
    fade: FadeState,
}

impl LedState {
    /// The fade duty always stays a multiple of 10 within 0..=100.
    #[verifier::type_invariant]
    spec fn inv(self) -> bool {
        valid_duty(self.fade.duty)
    }

    pub closed spec fn spec_mode(self) -> LedMode {
        self.mode
    }

    pub closed spec fn spec_last_blink(self) -> u32 {
        self.last_blink_timer_count
    }

    pub closed spec fn spec_duty(self) -> u8 {
        self.fade.duty
    }

    pub closed spec fn spec_descending(self) -> bool {
        self.fade.descending
    }

    pub closed spec fn spec_last_fade(self) -> u32 {
        self.fade.last_timer_count
    }

    /// The LED demo starts switched off, with both timer marks at `timer_count`.
    pub fn new(timer_count: u32) -> (r: Self)
        ensures
            r.spec_mode() == LedMode::Off,
            r.spec_last_blink() == timer_count,
            r.spec_duty() == 0,
            !r.spec_descending(),
            r.spec_last_fade() == timer_count,
    {
        LedState { mode: LedMode::Off, last_blink_timer_count: timer_count, fade: FadeState::new(timer_count) }
    }

    pub fn mode(&self) -> (r: LedMode)
        ensures
            r == self.spec_mode(),
    {
        self.mode
    }

    pub fn fade_duty(&self) -> (r: u8)
        ensures
            r == self.spec_duty(),
            valid_duty(r),
    {
        proof {
            use_type_invariant(self);
        }
        self.fade.duty
    }

    /// Switches to the next mode and restarts blinking and fading at `timer_count`.
    /// The caller then switches the blinking LED and both fading LEDs off.
    pub fn cycle_mode(&mut self, timer_count: u32) -> (r: LedMode)
        ensures
            r == final(self).spec_mode(),
            final(self).spec_mode() == next_mode(old(self).spec_mode()),
            final(self).spec_last_blink() == timer_count,
            final(self).spec_duty() == 0,
            !final(self).spec_descending(),
            final(self).spec_last_fade() == timer_count,
    {
        proof {
            use_type_invariant(&*self);
        }
        self.mode = self.mode.next();
        self.last_blink_timer_count = timer_count;
        self.fade.reset(timer_count);
        self.mode
    }

    /// Advances the demo to `timer_count` and says what the outputs must do.
    /// Off: nothing. Blink: the LED toggles when an odd number of ticks elapsed.
    /// Fade: one fade step per elapsed tick, and the two LEDs get complementary duties.
    pub fn update(&mut self, timer_count: u32) -> (r: LedAction)
        ensures
            final(self).spec_mode() == old(self).spec_mode(),
            ({
                let e = elapsed_ticks(timer_count, old(self).spec_last_blink());
                old(self).spec_mode() == LedMode::Blink ==> {
                    &&& r == (if e % 2 == 1 { LedAction::ToggleBlink } else { LedAction::Nothing })
                    &&& final(self).spec_last_blink() == (if e == 0 { old(self).spec_last_blink() } else { timer_count })
                    &&& final(self).spec_duty() == old(self).spec_duty()
                    &&& final(self).spec_descending() == old(self).spec_descending()
                    &&& final(self).spec_last_fade() == old(self).spec_last_fade()
                }
            }),
            ({
                let e = elapsed_ticks(timer_count, old(self).spec_last_fade());
                let s = fade_steps(old(self).spec_duty(), old(self).spec_descending(), e);
                old(self).spec_mode() == LedMode::Fade ==> {
                    &&& final(self).spec_last_blink() == old(self).spec_last_blink()
                    &&& if e == 0 {
                        &&& r == LedAction::Nothing
                        &&& final(self).spec_duty() == old(self).spec_duty()
                        &&& final(self).spec_descending() == old(self).spec_descending()
                        &&& final(self).spec_last_fade() == old(self).spec_last_fade()
                    } else {
                        &&& r == LedAction::SetFadeDuties(s.0, (100 - s.0) as u8)
                        &&& final(self).spec_duty() == s.0
                        &&& final(self).spec_descending() == s.1
                        &&& final(self).spec_last_fade() == timer_count
                    }
                }
            }),
            old(self).spec_mode() == LedMode::Off ==> r == LedAction::Nothing && *final(self) == *old(self),
    {
        proof {
            use_type_invariant(&*self);
        }
        match self.mode {
            LedMode::Off => LedAction::Nothing,
            LedMode::Blink => {
                if self.update_blink(timer_count) {
                    LedAction::ToggleBlink
                } else {
                    LedAction::Nothing
                }
            },
            LedMode::Fade => match self.update_fade(timer_count) {
                Some((a, b)) => LedAction::SetFadeDuties(a, b),
                None => LedAction::Nothing,
            },
        }
    }

    fn update_blink(&mut self, timer_count: u32) -> (toggle: bool)
        ensures
            ({
                let e = elapsed_ticks(timer_count, old(self).spec_last_blink());
                &&& toggle == (e % 2 == 1)
                &&& final(self).spec_last_blink() == (if e == 0 { old(self).spec_last_blink() } else { timer_count })
            }),
            final(self).mode == old(self).mode,
            final(self).fade == old(self).fade,
    {
        proof {
            use_type_invariant(&*self);
        }
        let elapsed_ticks = timer_count.wrapping_sub(self.last_blink_timer_count);
        if elapsed_ticks == 0 {
            return false;
        }
        let toggle = !elapsed_ticks.is_multiple_of(2);
        self.last_blink_timer_count = timer_count;
        toggle
    }

    fn update_fade(&mut self, timer_count: u32) -> (duties: Option<(u8, u8)>)
        ensures
            ({
                let e = elapsed_ticks(timer_count, old(self).fade.last_timer_count);
                let s = fade_steps(old(self).fade.duty, old(self).fade.descending, e);
                if e == 0 {
                    duties is None && *final(self) == *old(self)
                } else {
                    &&& duties == Some((s.0, (100 - s.0) as u8))
                    &&& final(self).fade.duty == s.0
                    &&& final(self).fade.descending == s.1
                    &&& final(self).fade.last_timer_count == timer_count
                }
            }),
            final(self).mode == old(self).mode,
            final(self).last_blink_timer_count == old(self).last_blink_timer_count,
    {
        proof {
            use_type_invariant(&*self);
        }
        let elapsed_ticks = timer_count.wrapping_sub(self.fade.last_timer_count);
        if elapsed_ticks == 0 {
            return None;
        }
        let ghost d0 = self.fade.duty;
        let ghost b0 = self.fade.descending;
        let mut duty = self.fade.duty;
        let mut descending = self.fade.descending;
        let mut i: u32 = 0;
        while i < elapsed_ticks
            invariant
                0 <= i <= elapsed_ticks,
                valid_duty(d0),
                (duty, descending) == fade_steps(d0, b0, i as nat),
            decreases elapsed_ticks - i,
        {
            proof {
                lemma_fade_steps_valid(d0, b0, i as nat);
            }
            let mut step = FadeState { duty, descending, last_timer_count: 0 };
            step.advance();
            duty = step.duty;
            descending = step.descending;
            i = i + 1;
        }
        proof {
            lemma_fade_steps_valid(d0, b0, elapsed_ticks as nat);
        }
        self.fade = FadeState { duty, descending, last_timer_count: timer_count };
        Some((duty, 100 - duty))
    }
}

} // verus!
