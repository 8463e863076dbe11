use vstd::prelude::*;

use crate::bluetooth::event::pushed_keep_latest;

verus! {

/// Capacity of the scan result queue.
pub const SCAN_RESULTS_CAPACITY: usize = 32;

/// One received advertisement report: the advertiser's device address, the signal
/// strength, and the first `data_len` bytes of `data` as advertising data.
#[derive(Clone, Copy, Debug)]
pub struct ScannerResult {
    pub address: [u8; 6],
    pub rssi: i8,
    pub data_len: usize,
    pub data: [u8; 32],
}

/// The scan results held by a result deque, front first.
pub uninterp spec fn scan_deque_items(q: heapless::Deque<ScannerResult, 32>) -> Seq<ScannerResult>;

/// `heapless::Deque::new`: an empty deque.
#[verifier::external_body]
fn scan_deque_new() -> (r: heapless::Deque<ScannerResult, 32>)
    ensures
        scan_deque_items(r) == Seq::<ScannerResult>::empty(),
{
    heapless::Deque::new()
}

/// `heapless::Deque::is_full`: whether the deque holds its capacity of 32 items.
#[verifier::external_body]
fn scan_deque_is_full(q: &heapless::Deque<ScannerResult, 32>) -> (r: bool)
    ensures
        r == (scan_deque_items(*q).len() == 32),
{
    q.is_full()
}

/// `heapless::Deque::pop_front`: removes and returns the front item, `None` when empty.
#[verifier::external_body]
fn scan_deque_pop_front(q: &mut heapless::Deque<ScannerResult, 32>) -> (r: Option<ScannerResult>)
    ensures
        scan_deque_items(*old(q)).len() == 0 ==> r is None && scan_deque_items(*final(q)) == scan_deque_items(*old(q)),
        scan_deque_items(*old(q)).len() > 0 ==> r == Some(scan_deque_items(*old(q))[0])
            && scan_deque_items(*final(q)) == scan_deque_items(*old(q)).drop_first(),
{
    q.pop_front()
}

/// `heapless::Deque::push_back`: appends at the back unless the deque is full, in
/// which case it hands the item back unchanged.
#[verifier::external_body]
fn scan_deque_push_back(q: &mut heapless::Deque<ScannerResult, 32>, item: ScannerResult) -> (r: Result<(), ScannerResult>)
    ensures
        scan_deque_items(*old(q)).len() < 32 ==> r is Ok && scan_deque_items(*final(q)) == scan_deque_items(*old(q)).push(item),
        scan_deque_items(*old(q)).len() >= 32 ==> (r matches Err(back) && back == item) && scan_deque_items(*final(q)) == scan_deque_items(*old(q)),
{
    q.push_back(item)
}

/// The queue of scan results waiting to be processed: the latest 32 are kept.
pub struct ScanResults {
    queue: heapless::Deque<ScannerResult, 32>,
}

impl ScanResults {
    /// At most 32 results are held.
    #[verifier::type_invariant]
    spec fn inv(self) -> bool {
        scan_deque_items(self.queue).len() <= 32
    }

    /// The queued results, oldest first.
    pub closed spec fn view(self) -> Seq<ScannerResult> {
        scan_deque_items(self.queue)
    }

    /// An empty queue.
    pub fn new() -> (r: Self)
        ensures
            r.view() == Seq::<ScannerResult>::empty(),
    {
        ScanResults { queue: scan_deque_new() }
    }
}

/// At most 32 results are held.
pub fn check_scan_results(results: &ScanResults)
    ensures
        results.view().len() <= 32,
{
    proof {
        use_type_invariant(results);
    }
}

/// Takes the oldest queued scan result, if any.
pub fn next_scan_result(results: &mut ScanResults) -> (r: Option<ScannerResult>)
    ensures
        old(results).view().len() == 0 ==> r is None && final(results).view() == old(results).view(),
        old(results).view().len() > 0 ==> r == Some(old(results).view()[0]) && final(results).view()
            == old(results).view().drop_first(),
{
    proof {
        use_type_invariant(&*results);
    }
    let mut q = scan_deque_new();
    core::mem::swap(&mut q, &mut results.queue);
    let r = scan_deque_pop_front(&mut q);
    results.queue = q;
    r
}

/// Queues a scan result; when the queue is full its oldest result is dropped first.
pub fn push_scan_result(results: &mut ScanResults, result: ScannerResult)
    ensures
        final(results).view() == pushed_keep_latest(old(results).view(), result, 32),
        final(results).view().len() <= 32,
{
    proof {
        use_type_invariant(&*results);
    }
    let mut q = scan_deque_new();
    core::mem::swap(&mut q, &mut results.queue);
    if scan_deque_is_full(&q) {
        let _ = scan_deque_pop_front(&mut q);
    }
    let _ = scan_deque_push_back(&mut q, result);
    results.queue = q;
}

} // verus!
