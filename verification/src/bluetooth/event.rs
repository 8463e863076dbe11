use vstd::prelude::*;

verus! {

/// A change of the Bluetooth connection.
#[derive(Clone, Copy, Debug, PartialEq, Eq, Structural)]
pub enum BluetoothEvent {
    Connected,
    Disconnected,
}

/// Capacity of the Bluetooth event queue.
pub const EVENT_QUEUE_SIZE: usize = 8;

#[verifier::external_type_specification]
#[verifier::external_body]
#[verifier::reject_recursive_types(T)]
pub struct ExDeque<T, const N: usize>(heapless::Deque<T, N>);

/// The events held by a Bluetooth event deque, front first.
pub uninterp spec fn event_deque_items(q: heapless::Deque<BluetoothEvent, 8>) -> Seq<BluetoothEvent>;

/// `heapless::Deque::new`: an empty deque.
#[verifier::external_body]
fn event_deque_new() -> (r: heapless::Deque<BluetoothEvent, 8>)
    ensures
        event_deque_items(r) == Seq::<BluetoothEvent>::empty(),
{
    heapless::Deque::new()
}

/// `heapless::Deque::is_full`: whether the deque holds its capacity of 8 items.
#[verifier::external_body]
fn event_deque_is_full(q: &heapless::Deque<BluetoothEvent, 8>) -> (r: bool)
    ensures
        r == (event_deque_items(*q).len() == 8),
{
    q.is_full()
}

/// `heapless::Deque::pop_front`: removes and returns the front item, `None` when empty.
#[verifier::external_body]
fn event_deque_pop_front(q: &mut heapless::Deque<BluetoothEvent, 8>) -> (r: Option<BluetoothEvent>)
    ensures
        event_deque_items(*old(q)).len() == 0 ==> r is None && event_deque_items(*final(q)) == event_deque_items(*old(q)),
        event_deque_items(*old(q)).len() > 0 ==> r == Some(event_deque_items(*old(q))[0])
            && event_deque_items(*final(q)) == event_deque_items(*old(q)).drop_first(),
{
    q.pop_front()
}

/// `heapless::Deque::push_back`: appends at the back unless the deque is full, in
/// which case it hands the item back unchanged.
#[verifier::external_body]
fn event_deque_push_back(q: &mut heapless::Deque<BluetoothEvent, 8>, item: BluetoothEvent) -> (r: Result<(), BluetoothEvent>)
    ensures
        event_deque_items(*old(q)).len() < 8 ==> r is Ok && event_deque_items(*final(q)) == event_deque_items(*old(q)).push(item),
        event_deque_items(*old(q)).len() >= 8 ==> (r matches Err(back) && back == item) && event_deque_items(*final(q)) == event_deque_items(*old(q)),
{
    q.push_back(item)
}

/// The queue of Bluetooth events: it keeps the latest 8, dropping the oldest.
pub struct BluetoothEventQueue {
    queue: heapless::Deque<BluetoothEvent, 8>,
}

impl BluetoothEventQueue {
    /// At most 8 events are held.
    #[verifier::type_invariant]
    spec fn inv(self) -> bool {
        event_deque_items(self.queue).len() <= 8
    }

    /// The queued events, oldest first.
    pub closed spec fn view(self) -> Seq<BluetoothEvent> {
        event_deque_items(self.queue)
    }

    /// An empty queue.
    pub fn new() -> (r: Self)
        ensures
            r.view() == Seq::<BluetoothEvent>::empty(),
    {
        BluetoothEventQueue { queue: event_deque_new() }
    }
}

/// The latest 8 events of `q` followed by `e`.
pub open spec fn pushed_keep_latest<T>(q: Seq<T>, e: T, cap: nat) -> Seq<T> {
    if q.len() >= cap {
        q.drop_first().push(e)
    } else {
        q.push(e)
    }
}

/// A bounded queue that keeps the latest items stays within its capacity, ends with
/// the item just pushed, and keeps the newest of the items before it in order.
pub proof fn lemma_keep_latest<T>(q: Seq<T>, e: T, cap: nat)
    requires
        1 <= cap,
        q.len() <= cap,
    ensures
        pushed_keep_latest(q, e, cap).len() <= cap,
        pushed_keep_latest(q, e, cap).last() == e,
        pushed_keep_latest(q, e, cap).len() == (if q.len() == cap { cap } else { q.len() + 1 }),
        forall|i: int|
            0 <= i < pushed_keep_latest(q, e, cap).len() - 1 ==> #[trigger] pushed_keep_latest(q, e, cap)[i]
                == q[i + q.len() + 1 - pushed_keep_latest(q, e, cap).len()],
{
}

/// Queues `event`; when the queue is full its oldest event is dropped first.
pub fn push(queue: &mut BluetoothEventQueue, event: BluetoothEvent)
    ensures
        final(queue).view() == pushed_keep_latest(old(queue).view(), event, 8),
        final(queue).view().len() <= 8,
{
    proof {
        use_type_invariant(&*queue);
    }
    let mut q = event_deque_new();
    core::mem::swap(&mut q, &mut queue.queue);
    if event_deque_is_full(&q) {
        let _ = event_deque_pop_front(&mut q);
    }
    let _ = event_deque_push_back(&mut q, event);
    queue.queue = q;
}

/// Takes the oldest queued event, if any.
pub fn next(queue: &mut BluetoothEventQueue) -> (r: Option<BluetoothEvent>)
    ensures
        old(queue).view().len() == 0 ==> r is None && final(queue).view() == old(queue).view(),
        old(queue).view().len() > 0 ==> r == Some(old(queue).view()[0]) && final(queue).view()
            == old(queue).view().drop_first(),
{
    proof {
        use_type_invariant(&*queue);
    }
    let mut q = event_deque_new();
    core::mem::swap(&mut q, &mut queue.queue);
    let r = event_deque_pop_front(&mut q);
    queue.queue = q;
    r
}

} // verus!
