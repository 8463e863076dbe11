use vstd::prelude::*;

verus! {

/// The number of periodic timer interrupts seen so far, on a 32-bit counter
/// that wraps around.
pub struct TimerCounter {
    count: u32,
}

impl TimerCounter {
    pub closed spec fn spec_count(self) -> u32 {
        self.count
    }

    /// A counter that has seen no interrupt.
    pub fn new() -> (r: Self)
        ensures
            r.spec_count() == 0,
    {
        TimerCounter { count: 0 }
    }

    /// Counts one timer interrupt, wrapping around after `u32::MAX`.
    pub fn timer_handler(&mut self)
        ensures
            final(self).spec_count() == tick(old(self).spec_count()),
            final(self).spec_count() == (if old(self).spec_count() == u32::MAX {
                0
            } else {
                old(self).spec_count() + 1
            }),
    {
        self.count = self.count.wrapping_add(1);
    }
}

/// The count after one more timer interrupt, wrapping around after `u32::MAX`.
pub open spec fn tick(c: u32) -> u32 {
    if c == u32::MAX {
        0
    } else {
        (c + 1) as u32
    }
}

/// The count after `n` timer interrupts from the count `c`.
pub open spec fn ticks(c: u32, n: nat) -> u32
    decreases n,
{
    if n == 0 {
        c
    } else {
        tick(ticks(c, (n - 1) as nat))
    }
}

/// The counter counts interrupts modulo 2^32: after `n` interrupts from the count `c`
/// it reads `(c + n) mod 2^32` (so a fresh counter reads `n mod 2^32`), and the
/// wrapping difference between the two readings is `n mod 2^32`.
pub proof fn lemma_counter_counts(c: u32, n: nat)
    ensures
        ticks(c, n) == (c + n) % 0x1_0000_0000,
        (ticks(c, n) - c) % 0x1_0000_0000 == n % 0x1_0000_0000,
    decreases n,
{
    if n > 0 {
        lemma_counter_counts(c, (n - 1) as nat);
        let m = c + n - 1;
        vstd::arithmetic::div_mod::lemma_add_mod_noop(m, 1, 0x1_0000_0000);
        vstd::arithmetic::div_mod::lemma_small_mod(1, 0x1_0000_0000);
    }
    vstd::arithmetic::div_mod::lemma_sub_mod_noop(c + n, c as int, 0x1_0000_0000);
    vstd::arithmetic::div_mod::lemma_small_mod(c as nat, 0x1_0000_0000);
}

/// The number of timer interrupts counted so far.
pub fn event_counter(counter: &TimerCounter) -> (r: u32)
    ensures
        r == counter.spec_count(),
{
    counter.count
}

} // verus!
