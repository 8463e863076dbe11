use vstd::prelude::*;

use crate::io::input_pins::{button_event, ButtonId, InputEvent, PRIMARY_BUTTON_DEBOUNCE_US};
use crate::io::interrupt::debounce::ButtonDebounce;

verus! {

/// Capacity of the input event queue; events that arrive while it is full are dropped.
pub const EVENT_QUEUE_CAPACITY: usize = 8;

/// A fixed-capacity first-in first-out ring buffer of input events.
#[derive(Clone, Copy)]
pub struct EventQueue {
    events: [Option<InputEvent>; 8],
    read: usize,
    write: usize,
    len: usize,
}

/// The ring buffer is consistent: indices in range, the write index just after the
/// queued events, and every queued slot filled.
pub open spec fn ring_ok(events: Seq<Option<InputEvent>>, read: int, write: int, len: int) -> bool {
    &&& events.len() == 8
    &&& 0 <= read < 8
    &&& 0 <= write < 8
    &&& 0 <= len <= 8
    &&& write == (read + len) % 8
    &&& forall|k: int| 0 <= k < len ==> (#[trigger] events[(read + k) % 8]) is Some
}

impl EventQueue {
    #[verifier::type_invariant]
    spec fn inv(self) -> bool {
        ring_ok(self.events@, self.read as int, self.write as int, self.len as int)
    }

    /// The queued events, oldest first.
    pub closed spec fn view(self) -> Seq<InputEvent> {
        Seq::new(self.len as nat, |k: int| self.events@[(self.read + k) % 8]->0)
    }

    /// At most 8 events are queued.
    pub fn check_len(&self)
        ensures
            self.view().len() <= 8,
    {
        proof {
            use_type_invariant(self);
        }
    }

    /// An empty queue.
    pub fn new() -> (r: Self)
        ensures
            r.view() == Seq::<InputEvent>::empty(),
    {
        EventQueue { events: [None, None, None, None, None, None, None, None], read: 0, write: 0, len: 0 }
    }

    /// Appends `event` at the back; a full queue keeps its contents and drops `event`.
    #[verifier::rlimit(60)]
    pub fn push(&mut self, event: InputEvent)
        ensures
            final(self).view() == (if old(self).view().len() == 8 {
                old(self).view()
            } else {
                old(self).view().push(event)
            }),
    {
        proof {
            use_type_invariant(&*self);
        }
        if self.len == EVENT_QUEUE_CAPACITY {
            return;
        }
        let ghost before = self.view();
        let w = self.write;
        let read = self.read;
        let len = self.len + 1;
        let mut events = self.events;
        events[w] = Some(event);
        let write = (w + 1) % EVENT_QUEUE_CAPACITY;
        proof {
            assert forall|k: int| 0 <= k < len implies (#[trigger] events@[(read + k) % 8]) is Some by {
                if k < len - 1 {
                    assert((read + k) % 8 != w as int);
                    assert(self.events@[(read + k) % 8] is Some);
                }
            }
        }
        *self = EventQueue { events, read, write, len };
        proof {
            assert forall|k: int| 0 <= k < len - 1 implies self.view()[k] == before[k] by {
                assert((read + k) % 8 != w as int);
            }
            assert(self.view() =~= before.push(event));
        }
    }

    /// Removes and returns the oldest event, or `None` when the queue is empty.
    #[verifier::rlimit(60)]
    pub fn pop(&mut self) -> (r: Option<InputEvent>)
        ensures
            old(self).view().len() == 0 ==> r is None && final(self).view() == old(self).view(),
            old(self).view().len() > 0 ==> r == Some(old(self).view()[0]) && final(self).view()
                == old(self).view().drop_first(),
    {
        proof {
            use_type_invariant(&*self);
        }
        if self.len == 0 {
            return None;
        }
        let ghost before = self.view();
        let r = self.read;
        let event = self.events[r];
        proof {
            assert(self.events@[(self.read + 0) % 8] is Some);
        }
        let mut events = self.events;
        events[r] = None;
        let read = (r + 1) % EVENT_QUEUE_CAPACITY;
        let len = self.len - 1;
        let write = self.write;
        proof {
            assert forall|k: int| 0 <= k < len implies (#[trigger] events@[(read + k) % 8]) is Some by {
                assert((read + k) % 8 == (r + (k + 1)) % 8);
                assert((r + (k + 1)) % 8 != r as int);
                assert(self.events@[(r + (k + 1)) % 8] is Some);
            }
        }
        *self = EventQueue { events, read, write, len };
        proof {
            assert forall|k: int| 0 <= k < len implies self.view()[k] == before.drop_first()[k] by {
                assert((read + k) % 8 == (r + (k + 1)) % 8);
                assert((r + (k + 1)) % 8 != r as int);
            }
            assert(self.view() =~= before.drop_first());
        }
        event
    }
}

/// The input side of the board: the primary button's debouncer, its last
/// debounced level and the queue of debounced events.
pub struct InputState {
    debounce: ButtonDebounce,
    pressed: bool,
    queue: EventQueue,
}

impl InputState {
    /// The reported level is the debouncer's stable level.
    #[verifier::type_invariant]
    spec fn inv(self) -> bool {
        self.pressed == self.debounce.spec_stable()
    }

    pub closed spec fn spec_debounce(self) -> ButtonDebounce {
        self.debounce
    }

    pub closed spec fn spec_pressed(self) -> bool {
        self.pressed
    }

    pub closed spec fn spec_events(self) -> Seq<InputEvent> {
        self.queue.view()
    }

    /// No button configured yet: released, nothing pending, no events.
    pub fn new() -> (r: Self)
        ensures
            !r.spec_pressed(),
            !r.spec_debounce().spec_stable(),
            !r.spec_debounce().spec_pending_level(),
            !r.spec_debounce().spec_pending(),
            r.spec_debounce().spec_last_edge() == 0,
            r.spec_events() == Seq::<InputEvent>::empty(),
    {
        InputState { debounce: ButtonDebounce::new(), pressed: false, queue: EventQueue::new() }
    }

    /// The time of the button's last recorded edge (or of its configuration).
    pub fn last_edge(&self) -> (r: u64)
        ensures
            r == self.spec_debounce().spec_last_edge(),
    {
        self.debounce.last_edge()
    }

    /// The reported level is the debouncer's stable level, and at most 8 events are queued.
    pub fn check_inv(&self)
        ensures
            self.spec_pressed() == self.spec_debounce().spec_stable(),
            self.spec_events().len() <= 8,
    {
        proof {
            use_type_invariant(self);
        }
        self.queue.check_len();
    }

    /// Takes the current level of the freshly configured button as its stable level.
    pub fn init_primary_button(&mut self, pressed: bool, now_us: u64)
        ensures
            final(self).spec_pressed() == pressed,
            final(self).spec_debounce().spec_stable() == pressed,
            final(self).spec_debounce().spec_pending_level() == pressed,
            !final(self).spec_debounce().spec_pending(),
            final(self).spec_debounce().spec_last_edge() == now_us,
            final(self).spec_events() == old(self).spec_events(),
    {
        let mut debounce = self.debounce;
        debounce.configure(pressed, now_us);
        *self = InputState { debounce, pressed, queue: self.queue };
    }

    /// Records an edge of the primary button, as its interrupt handler does.
    pub fn record_primary_button_edge(&mut self, pressed: bool, now_us: u64)
        ensures
            final(self).spec_pressed() == old(self).spec_pressed(),
            final(self).spec_debounce().spec_stable() == old(self).spec_debounce().spec_stable(),
            final(self).spec_debounce().spec_pending_level() == pressed,
            final(self).spec_debounce().spec_pending(),
            final(self).spec_debounce().spec_last_edge() == now_us,
            final(self).spec_events() == old(self).spec_events(),
    {
        proof {
            use_type_invariant(&*self);
        }
        let mut debounce = self.debounce;
        debounce.record_edge(pressed, now_us);
        *self = InputState { debounce, pressed: self.pressed, queue: self.queue };
    }

    /// Settles the debouncer at `now_us`; a debounced event updates the reported
    /// level and is queued.
    pub fn process_debounce(&mut self, now_us: u64)
        requires
            now_us >= old(self).spec_debounce().spec_last_edge(),
        ensures
            final(self).spec_debounce().spec_last_edge() == old(self).spec_debounce().spec_last_edge(),
            debounce_result(*old(self), now_us, *final(self)),
    {
        proof {
            use_type_invariant(&*self);
        }
        let mut debounce = self.debounce;
        let mut pressed = self.pressed;
        let mut queue = self.queue;
        let event = debounce.take_event(now_us);
        if let Some(e) = event {
            pressed = match e {
                InputEvent::ButtonPressed(ButtonId::Primary) => true,
                _ => false,
            };
            queue.push(e);
        }
        *self = InputState { debounce, pressed, queue };
    }

    /// Settles the debouncer at `now_us`, then takes the oldest queued input event, if any.
    pub fn next_event(&mut self, now_us: u64) -> (r: Option<InputEvent>)
        requires
            now_us >= old(self).spec_debounce().spec_last_edge(),
        ensures
            exists|mid: InputState| #![auto] {
                &&& debounce_result(*old(self), now_us, mid)
                &&& final(self).spec_debounce() == mid.spec_debounce()
                &&& final(self).spec_pressed() == mid.spec_pressed()
                &&& mid.spec_events().len() == 0 ==> r is None && final(self).spec_events() == mid.spec_events()
                &&& mid.spec_events().len() > 0 ==> r == Some(mid.spec_events()[0])
                    && final(self).spec_events() == mid.spec_events().drop_first()
            },
    {
        self.process_debounce(now_us);
        let ghost mid = *self;
        proof {
            use_type_invariant(&*self);
        }
        let mut queue = self.queue;
        let r = queue.pop();
        *self = InputState { debounce: self.debounce, pressed: self.pressed, queue };
        r
    }

    /// Settles the debouncer at `now_us`, then says whether the primary button is held down.
    pub fn primary_button_is_pressed(&mut self, now_us: u64) -> (r: bool)
        requires
            now_us >= old(self).spec_debounce().spec_last_edge(),
        ensures
            debounce_result(*old(self), now_us, *final(self)),
            r == final(self).spec_pressed(),
            r == final(self).spec_debounce().spec_stable(),
    {
        self.process_debounce(now_us);
        proof {
            use_type_invariant(&*self);
        }
        self.pressed
    }
}

/// The effect of settling the debouncer of `s` at `now_us`, giving `t`.
pub open spec fn debounce_result(s: InputState, now_us: u64, t: InputState) -> bool {
    let d = s.spec_debounce();
    let due = d.spec_pending() && now_us - d.spec_last_edge() >= PRIMARY_BUTTON_DEBOUNCE_US;
    let changed = due && d.spec_stable() != d.spec_pending_level();
    &&& !due ==> t.spec_debounce() == d && t.spec_pressed() == s.spec_pressed()
        && t.spec_events() == s.spec_events()
    &&& due ==> {
        &&& !t.spec_debounce().spec_pending()
        &&& t.spec_debounce().spec_stable() == d.spec_pending_level()
        &&& t.spec_debounce().spec_pending_level() == d.spec_pending_level()
        &&& t.spec_debounce().spec_last_edge() == d.spec_last_edge()
        &&& t.spec_pressed() == d.spec_pending_level()
    }
    &&& due && !changed ==> t.spec_events() == s.spec_events()
    &&& changed ==> t.spec_events() == (if s.spec_events().len() == 8 {
        s.spec_events()
    } else {
        s.spec_events().push(button_event(d.spec_pending_level()))
    })
}

} // verus!
