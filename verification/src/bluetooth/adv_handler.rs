use vstd::prelude::*;

use crate::bluetooth::event::pushed_keep_latest;
use crate::bluetooth::scanner::{push_scan_result, ScanResults, ScannerResult};

verus! {

/// How many advertiser addresses the handler remembers.
pub const SEEN_CAPACITY: usize = 128;

/// The addresses held by an address deque, front first.
pub uninterp spec fn addr_deque_items(q: heapless::Deque<[u8; 6], 128>) -> Seq<[u8; 6]>;

/// `heapless::Deque::new`: an empty deque.
#[verifier::external_body]
fn addr_deque_new() -> (r: heapless::Deque<[u8; 6], 128>)
    ensures
        addr_deque_items(r) == Seq::<[u8; 6]>::empty(),
{
    heapless::Deque::new()
}

/// `heapless::Deque::is_full`: whether the deque holds its capacity of 128 items.
#[verifier::external_body]
fn addr_deque_is_full(q: &heapless::Deque<[u8; 6], 128>) -> (r: bool)
    ensures
        r == (addr_deque_items(*q).len() == 128),
{
    q.is_full()
}

/// `heapless::Deque::pop_front`: removes and returns the front item, `None` when empty.
#[verifier::external_body]
fn addr_deque_pop_front(q: &mut heapless::Deque<[u8; 6], 128>) -> (r: Option<[u8; 6]>)
    ensures
        addr_deque_items(*old(q)).len() == 0 ==> r is None && addr_deque_items(*final(q)) == addr_deque_items(*old(q)),
        addr_deque_items(*old(q)).len() > 0 ==> r == Some(addr_deque_items(*old(q))[0])
            && addr_deque_items(*final(q)) == addr_deque_items(*old(q)).drop_first(),
{
    q.pop_front()
}

/// `heapless::Deque::push_back`: appends at the back unless the deque is full, in
/// which case it hands the item back unchanged.
#[verifier::external_body]
fn addr_deque_push_back(q: &mut heapless::Deque<[u8; 6], 128>, item: [u8; 6]) -> (r: Result<(), [u8; 6]>)
    ensures
        addr_deque_items(*old(q)).len() < 128 ==> r is Ok && addr_deque_items(*final(q)) == addr_deque_items(*old(q)).push(item),
        addr_deque_items(*old(q)).len() >= 128 ==> (r matches Err(back) && back == item) && addr_deque_items(*final(q)) == addr_deque_items(*old(q)),
{
    q.push_back(item)
}

/// Receives advertisement reports: queues each as a scan result and remembers the
/// latest 128 advertiser addresses.
pub struct AdvertisementHandler {
    seen: heapless::Deque<[u8; 6], 128>,
}

/// The scan result that a report with `address`, `rssi` and advertising data `data` gives:
/// the data copied to the front of a zeroed 32-byte buffer.
pub open spec fn report_result(r: ScannerResult, address: [u8; 6], rssi: i8, data: Seq<u8>) -> bool {
    &&& r.address == address
    &&& r.rssi == rssi
    &&& r.data_len == data.len()
    &&& forall|i: int| 0 <= i < 32 ==> #[trigger] r.data[i] == (if i < data.len() { data[i] } else { 0u8 })
}

impl AdvertisementHandler {
    /// At most 128 addresses are remembered.
    #[verifier::type_invariant]
    spec fn inv(self) -> bool {
        addr_deque_items(self.seen).len() <= 128
    }

    /// The remembered addresses, oldest first.
    pub closed spec fn view(self) -> Seq<[u8; 6]> {
        addr_deque_items(self.seen)
    }

    /// A handler that has seen nothing.
    pub fn new() -> (r: Self)
        ensures
            r.view() == Seq::<[u8; 6]>::empty(),
    {
        AdvertisementHandler { seen: addr_deque_new() }
    }

    /// Handles one advertisement report: its scan result is queued on `results`
    /// and its address remembered, the oldest address giving way when 128 are held.
    pub fn on_adv_report(&mut self, results: &mut ScanResults, address: [u8; 6], rssi: i8, data: &[u8])
        requires
            data@.len() <= 32,
        ensures
            final(self).view() == pushed_keep_latest(old(self).view(), address, 128),
            final(self).view().len() <= 128,
            final(results).view().len() <= 32,
            final(results).view().len() >= 1,
            report_result(final(results).view().last(), address, rssi, data@),
            final(results).view() == pushed_keep_latest(old(results).view(), final(results).view().last(), 32),
    {
        proof {
            use_type_invariant(&*self);
        }
        let mut buffer = [0u8; 32];
        let mut i: usize = 0;
        while i < data.len()
            invariant
                data@.len() <= 32,
                i <= data@.len(),
                forall|k: int| 0 <= k < 32 ==> #[trigger] buffer@[k] == (if k < i { data@[k] } else { 0u8 }),
            decreases data@.len() - i,
        {
            buffer[i] = data[i];
            i = i + 1;
        }
        push_scan_result(results, ScannerResult { address, rssi, data: buffer, data_len: data.len() });
        let mut seen = addr_deque_new();
        core::mem::swap(&mut seen, &mut self.seen);
        if addr_deque_is_full(&seen) {
            let _ = addr_deque_pop_front(&mut seen);
        }
        let _ = addr_deque_push_back(&mut seen, address);
        self.seen = seen;
    }
}

} // verus!
