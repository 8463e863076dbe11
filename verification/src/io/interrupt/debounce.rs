use vstd::prelude::*;

use crate::io::input_pins::{button_event, ButtonId, InputEvent, PRIMARY_BUTTON_DEBOUNCE_US};

verus! {

/// The debouncer of one button. A level change is only reported once the
/// button stayed quiet for the debounce time after its last edge.
/// Timestamps are in microseconds of a monotonic clock.
#[derive(Clone, Copy)]
pub struct ButtonDebounce {
    stable_pressed: bool,
    pending_pressed: bool,
    pending: bool,
    last_edge: u64,
}

/// One thing the debouncer is told after its configuration: an edge towards a level
/// at a time, or a request for the debounced event at a time.
pub enum DebounceOp {
    Edge(bool, u64),
    Take(u64),
}

impl ButtonDebounce {
    /// The debouncer after an edge towards `pressed` at `now_us`.
    pub closed spec fn after_edge(self, pressed: bool, now_us: u64) -> ButtonDebounce {
        ButtonDebounce { pending_pressed: pressed, pending: true, last_edge: now_us, ..self }
    }

    /// The debouncer and the event after a request at `now_us`.
    pub closed spec fn after_take(self, now_us: u64) -> (ButtonDebounce, Option<InputEvent>) {
        if !self.pending || now_us - self.last_edge < PRIMARY_BUTTON_DEBOUNCE_US {
            (self, None)
        } else if self.stable_pressed == self.pending_pressed {
            (ButtonDebounce { pending: false, ..self }, None)
        } else {
            (
                ButtonDebounce { pending: false, stable_pressed: self.pending_pressed, ..self },
                Some(button_event(self.pending_pressed)),
            )
        }
    }

    /// The debouncer after `ops`, and the events that the requests among them gave, in order.
    pub open spec fn after_ops(self, ops: Seq<DebounceOp>) -> (ButtonDebounce, Seq<InputEvent>)
        decreases ops.len(),
    {
        if ops.len() == 0 {
            (self, Seq::empty())
        } else {
            let prev = self.after_ops(ops.drop_last());
            match ops.last() {
                DebounceOp::Edge(pressed, now_us) => (prev.0.after_edge(pressed, now_us), prev.1),
                DebounceOp::Take(now_us) => {
                    let t = prev.0.after_take(now_us);
                    match t.1 {
                        Some(e) => (t.0, prev.1.push(e)),
                        None => (t.0, prev.1),
                    }
                },
            }
        }
    }

    pub closed spec fn spec_stable(self) -> bool {
        self.stable_pressed
    }

    pub closed spec fn spec_pending_level(self) -> bool {
        self.pending_pressed
    }

    pub closed spec fn spec_pending(self) -> bool {
        self.pending
    }

    pub closed spec fn spec_last_edge(self) -> u64 {
        self.last_edge
    }

    /// The time of the last recorded edge (or of the configuration).
    pub fn last_edge(&self) -> (r: u64)
        ensures
            r == self.spec_last_edge(),
    {
        self.last_edge
    }

    /// A released button with no pending edge, last edge at time 0.
    pub fn new() -> (r: Self)
        ensures
            !r.spec_stable(),
            !r.spec_pending_level(),
            !r.spec_pending(),
            r.spec_last_edge() == 0,
    {
        ButtonDebounce { stable_pressed: false, pending_pressed: false, pending: false, last_edge: 0 }
    }

    /// Takes the button's current level as the stable one, at time `now_us`.
    pub fn configure(&mut self, pressed: bool, now_us: u64)
        ensures
            final(self).spec_stable() == pressed,
            final(self).spec_pending_level() == pressed,
            !final(self).spec_pending(),
            final(self).spec_last_edge() == now_us,
    {
        self.stable_pressed = pressed;
        self.pending_pressed = pressed;
        self.pending = false;
        self.last_edge = now_us;
    }

    /// Records an edge towards the level `pressed` seen at time `now_us`.
    pub fn record_edge(&mut self, pressed: bool, now_us: u64)
        ensures
            final(self).spec_stable() == old(self).spec_stable(),
            final(self).spec_pending_level() == pressed,
            final(self).spec_pending(),
            final(self).spec_last_edge() == now_us,
            *final(self) == old(self).after_edge(pressed, now_us),
    {
        self.pending_pressed = pressed;
        self.pending = true;
        self.last_edge = now_us;
    }

    /// At time `now_us`, reports the debounced level change if there is one:
    /// nothing while no edge is pending or the debounce time has not passed since the
    /// last edge; otherwise the pending edge is settled, and an event comes out
    /// exactly when it changed the stable level.
    pub fn take_event(&mut self, now_us: u64) -> (r: Option<InputEvent>)
        requires
            now_us >= old(self).spec_last_edge(),
        ensures
            (*final(self), r) == old(self).after_take(now_us),
            final(self).spec_last_edge() == old(self).spec_last_edge(),
            final(self).spec_pending_level() == old(self).spec_pending_level(),
            !old(self).spec_pending() || now_us - old(self).spec_last_edge() < PRIMARY_BUTTON_DEBOUNCE_US
                ==> r is None && *final(self) == *old(self),
            old(self).spec_pending() && now_us - old(self).spec_last_edge() >= PRIMARY_BUTTON_DEBOUNCE_US
                ==> {
                &&& !final(self).spec_pending()
                &&& final(self).spec_stable() == old(self).spec_pending_level()
                &&& r == (if old(self).spec_stable() == old(self).spec_pending_level() {
                    None
                } else {
                    Some(button_event(old(self).spec_pending_level()))
                })
            },
    {
        if !self.pending || now_us - self.last_edge < PRIMARY_BUTTON_DEBOUNCE_US {
            return None;
        }
        self.pending = false;
        if self.stable_pressed == self.pending_pressed {
            return None;
        }
        self.stable_pressed = self.pending_pressed;
        Some(
            if self.stable_pressed {
                InputEvent::ButtonPressed(ButtonId::Primary)
            } else {
                InputEvent::ButtonReleased(ButtonId::Primary)
            },
        )
    }
}

/// Debounced events alternate: whatever edges and requests follow the configuration,
/// the first event reports a change from the configured level, each event reports the
/// opposite of the one before it, and the last one reports the current stable level.
pub proof fn lemma_debounce_events_alternate(d: ButtonDebounce, ops: Seq<DebounceOp>)
    ensures
        ({
            let (after, events) = d.after_ops(ops);
            &&& events.len() == 0 ==> after.spec_stable() == d.spec_stable()
            &&& events.len() > 0 ==> events[0] != button_event(d.spec_stable())
            &&& events.len() > 0 ==> events.last() == button_event(after.spec_stable())
            &&& forall|i: int| 0 <= i < events.len() - 1 ==> #[trigger] events[i] != events[i + 1]
        }),
    decreases ops.len(),
{
    if ops.len() > 0 {
        lemma_debounce_events_alternate(d, ops.drop_last());
        let prev = d.after_ops(ops.drop_last());
        match ops.last() {
            DebounceOp::Edge(pressed, now_us) => {},
            DebounceOp::Take(now_us) => {
                let t = prev.0.after_take(now_us);
                if let Some(e) = t.1 {
                    let evs = prev.1.push(e);
                    assert forall|i: int| 0 <= i < evs.len() - 1 implies #[trigger] evs[i] != evs[i + 1] by {
                        if i < prev.1.len() - 1 {
                            assert(evs[i] == prev.1[i] && evs[i + 1] == prev.1[i + 1]);
                        }
                    }
                }
            },
        }
    }
}

} // verus!
