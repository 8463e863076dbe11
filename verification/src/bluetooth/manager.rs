use vstd::prelude::*;

use crate::bluetooth::advertisement::{parse_advertisement, parse_advertisement_data};
use crate::bluetooth::registry::{update_ok, update_spec, DeviceRegistry, DeviceView};
use crate::bluetooth::scanner::{next_scan_result, ScanResults, ScannerResult};

verus! {

/// What a scan result announces.
pub open spec fn result_adv(r: ScannerResult) -> crate::bluetooth::advertisement::AdvView {
    parse_advertisement(r.data@.subrange(0, r.data_len as int))
}

/// The registry after the scan results `results` are recorded in order, and whether
/// any of them was news.
pub open spec fn poll_spec(devices: Seq<DeviceView>, results: Seq<ScannerResult>) -> (Seq<DeviceView>, bool)
    decreases results.len(),
{
    if results.len() == 0 {
        (devices, false)
    } else {
        let r = results[0];
        let first = update_spec(devices, r.address@, r.rssi, result_adv(r));
        let rest = poll_spec(first.0, results.drop_first());
        (rest.0, first.1 || rest.1)
    }
}

/// Recording `results` in order does not panic: every result's data length fits its
/// buffer and every update is one that `DeviceRegistry::update` accepts.
pub open spec fn poll_ok(devices: Seq<DeviceView>, results: Seq<ScannerResult>) -> bool
    decreases results.len(),
{
    results.len() > 0 ==> {
        let r = results[0];
        &&& r.data_len <= 32
        &&& update_ok(devices, r.address@, r.rssi)
        &&& poll_ok(update_spec(devices, r.address@, r.rssi, result_adv(r)).0, results.drop_first())
    }
}

/// Keeps the registry of Bluetooth devices up to date from the scan results.
pub struct BluetoothManager {
    devices: DeviceRegistry,
}

impl BluetoothManager {
    /// The registry's devices.
    pub closed spec fn view(self) -> Seq<DeviceView> {
        self.devices.view()
    }

    /// A manager that knows no device yet.
    pub fn new() -> (r: Self)
        ensures
            r.view() == Seq::<DeviceView>::empty(),
    {
        BluetoothManager { devices: DeviceRegistry::new() }
    }

    /// The registry of devices seen.
    pub fn devices(&self) -> (r: &DeviceRegistry)
        ensures
            r.view() == self.view(),
    {
        &self.devices
    }

    /// Whether `record` accepts `result`: its data length fits its buffer and the
    /// registry accepts the update.
    pub fn can_record(&self, result: &ScannerResult) -> (r: bool)
        ensures
            r == (result.data_len <= 32 && update_ok(self.view(), result.address@, result.rssi)),
    {
        result.data_len <= 32 && self.devices.can_update(&result.address, result.rssi)
    }

    /// Records one scan result and says whether it was news.
    pub fn record(&mut self, result: ScannerResult) -> (changed: bool)
        requires
            result.data_len <= 32,
            update_ok(old(self).view(), result.address@, result.rssi),
        ensures
            (final(self).view(), changed) == update_spec(old(self).view(), result.address@, result.rssi, result_adv(result)),
    {
        let parsed = parse_advertisement_data(&result);
        self.devices.update(result.address, result.rssi, parsed)
    }

    /// Records every queued scan result, oldest first, and says whether any was news.
    pub fn poll(&mut self, results: &mut ScanResults) -> (changed: bool)
        requires
            poll_ok(old(self).view(), old(results).view()),
        ensures
            final(results).view() == Seq::<ScannerResult>::empty(),
            (final(self).view(), changed) == poll_spec(old(self).view(), old(results).view()),
    {
        let ghost total = poll_spec(self.view(), results.view());
        let mut changed = false;
        loop
            invariant_except_break
                poll_ok(self.view(), results.view()),
                total == (poll_spec(self.view(), results.view()).0, changed || poll_spec(self.view(), results.view()).1),
            ensures
                results.view() == Seq::<ScannerResult>::empty(),
                total == (self.view(), changed),
            decreases results.view().len(),
        {
            let ghost before = results.view();
            match next_scan_result(results) {
                Some(result) => {
                    if self.record(result) {
                        changed = true;
                    }
                },
                None => {
                    break;
                },
            }
        }
        changed
    }
}

} // verus!
