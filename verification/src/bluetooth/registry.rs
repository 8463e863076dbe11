use vstd::prelude::*;

use crate::bluetooth::advertisement::{merged, AdvView, AdvertisementData};

verus! {

/// Capacity of the device registry.
pub const REGISTRY_CAPACITY: usize = 16;

/// A device seen advertising: its address, last signal strength and what it announced.
#[derive(Debug, Clone)]
pub struct BleDevice {
    pub address: [u8; 6],
    pub rssi: i8,
    pub adv: AdvertisementData,
}

/// The plain content of a device record: address bytes, signal strength, announcements.
pub type DeviceView = (Seq<u8>, i8, AdvView);

impl View for BleDevice {
    type V = DeviceView;

    open spec fn view(&self) -> DeviceView {
        (self.address@, self.rssi, self.adv@)
    }
}

#[verifier::external_type_specification]
#[verifier::external_body]
#[verifier::reject_recursive_types(T)]
pub struct ExVec<T, const N: usize>(heapless::Vec<T, N>);

/// The devices held by a device vector, in order.
pub uninterp spec fn device_vec_items(v: heapless::Vec<BleDevice, 16>) -> Seq<BleDevice>;

/// `heapless::Vec::new`: an empty vector.
#[verifier::external_body]
fn device_vec_new() -> (r: heapless::Vec<BleDevice, 16>)
    ensures
        device_vec_items(r) == Seq::<BleDevice>::empty(),
{
    heapless::Vec::new()
}

/// `heapless::Vec::as_slice`: the items, in order.
#[verifier::external_body]
fn device_vec_as_slice(v: &heapless::Vec<BleDevice, 16>) -> (r: &[BleDevice])
    ensures
        r@ == device_vec_items(*v),
{
    v.as_slice()
}

/// `heapless::Vec::as_mut_slice`, indexed: a mutable borrow of item `i`; what is
/// written through it becomes item `i`, and the other items stay.
#[verifier::external_body]
fn device_vec_get_mut(v: &mut heapless::Vec<BleDevice, 16>, i: usize) -> (r: &mut BleDevice)
    requires
        i < device_vec_items(*old(v)).len(),
    ensures
        *r == device_vec_items(*old(v))[i as int],
        device_vec_items(*final(v)) == device_vec_items(*old(v)).update(i as int, *final(r)),
{
    &mut v.as_mut_slice()[i]
}

/// `heapless::Vec::push`: appends unless the vector holds its capacity of 16 items,
/// in which case it hands the item back unchanged.
#[verifier::external_body]
fn device_vec_push(v: &mut heapless::Vec<BleDevice, 16>, item: BleDevice) -> (r: Result<(), BleDevice>)
    ensures
        device_vec_items(*old(v)).len() < 16 ==> r is Ok && device_vec_items(*final(v)) == device_vec_items(*old(v)).push(item),
        device_vec_items(*old(v)).len() >= 16 ==> (r matches Err(back) && back == item) && device_vec_items(*final(v)) == device_vec_items(*old(v)),
{
    v.push(item)
}

/// The devices seen so far, at most 16, each address once.
#[derive(Debug)]
pub struct DeviceRegistry {
    devices: heapless::Vec<BleDevice, 16>,
}

/// The index of the first device of `devices` with `address`, if any.
pub open spec fn find_device(devices: Seq<DeviceView>, address: Seq<u8>) -> Option<int>
    decreases devices.len(),
{
    if devices.len() == 0 {
        None
    } else {
        match find_device(devices.drop_last(), address) {
            Some(i) => Some(i),
            None => if devices.last().0 == address {
                Some(devices.len() - 1)
            } else {
                None
            },
        }
    }
}

/// `a.wrapping_sub(b)` for `i8`.
pub open spec fn i8_wrapping_sub(a: i8, b: i8) -> int {
    let d = a - b;
    if d > 127 {
        d - 256
    } else if d < -128 {
        d + 256
    } else {
        d
    }
}

/// The signal strength changed enough to report: the wrapped difference is at least 12 in size.
pub open spec fn rssi_changed(old_rssi: i8, new_rssi: i8) -> bool {
    let d = i8_wrapping_sub(old_rssi, new_rssi);
    d >= 12 || d <= -12
}

/// Whether advertisement data announces anything.
pub open spec fn announces(adv: AdvView) -> bool {
    adv.0 is Some || adv.1 is Some || adv.2 is Some
}

/// `update` does not panic: a known device's signal strengths do not differ by the
/// one wrapped value (-128) whose absolute value overflows, and a new device finds room.
pub open spec fn update_ok(devices: Seq<DeviceView>, address: Seq<u8>, rssi: i8) -> bool {
    match find_device(devices, address) {
        Some(i) => i8_wrapping_sub(devices[i].1, rssi) != -128,
        None => devices.len() < 16,
    }
}

/// The registry after a report from `address` with `rssi` and announcements `adv`, and
/// whether the report is news: a known device takes the new signal strength and merges
/// in the announcements, news when the strength moved by 12 or more or anything was
/// announced; an unknown device is appended, always news.
pub open spec fn update_spec(devices: Seq<DeviceView>, address: Seq<u8>, rssi: i8, adv: AdvView) -> (Seq<DeviceView>, bool) {
    match find_device(devices, address) {
        Some(i) => (
            devices.update(i, (address, rssi, merged(devices[i].2, adv))),
            rssi_changed(devices[i].1, rssi) || announces(adv),
        ),
        None => (devices.push((address, rssi, adv)), true),
    }
}

/// No address occurs twice among `devices`.
pub open spec fn unique_addresses(devices: Seq<DeviceView>) -> bool {
    forall|i: int, j: int| 0 <= i < j < devices.len() ==> #[trigger] devices[i].0 != #[trigger] devices[j].0
}

/// The registry keeps one record per device: an update keeps addresses unique, and
/// afterwards the reporting device is found, holding the reported signal strength;
/// at most one record is added.
pub proof fn lemma_update_keeps_one_record_per_device(devices: Seq<DeviceView>, address: Seq<u8>, rssi: i8, adv: AdvView)
    requires
        unique_addresses(devices),
    ensures
        unique_addresses(update_spec(devices, address, rssi, adv).0),
        find_device(update_spec(devices, address, rssi, adv).0, address) matches Some(i)
            && update_spec(devices, address, rssi, adv).0[i].1 == rssi,
        update_spec(devices, address, rssi, adv).0.len() <= devices.len() + 1,
{
    lemma_find_device_spec(devices, address);
    let r = update_spec(devices, address, rssi, adv).0;
    lemma_find_device_spec(r, address);
    match find_device(devices, address) {
        Some(i) => {
            assert forall|a: int, b: int| 0 <= a < b < r.len() implies #[trigger] r[a].0 != #[trigger] r[b].0 by {
                if a != i && b != i {
                    assert(devices[a].0 != devices[b].0);
                }
                if a == i {
                    assert(devices[a].0 != devices[b].0);
                }
                if b == i {
                    assert(devices[a].0 != devices[b].0);
                }
            }
            if find_device(r, address) is None {
                assert(r[i].0 == address);
            }
            let k = find_device(r, address)->0;
            if k != i {
                assert(r[k].0 == address && r[i].0 == address);
                if k < i {
                    assert(devices[k].0 == address);
                }
            }
        },
        None => {
            assert forall|a: int, b: int| 0 <= a < b < r.len() implies #[trigger] r[a].0 != #[trigger] r[b].0 by {
                if b == devices.len() {
                    assert(devices[a].0 != address);
                } else {
                    assert(devices[a].0 != devices[b].0);
                }
            }
            if find_device(r, address) is None {
                assert(r[devices.len() as int].0 == address);
            }
            let k = find_device(r, address)->0;
            if k < devices.len() {
                assert(devices[k].0 == address);
            }
        },
    }
}

proof fn lemma_find_device_step(devices: Seq<DeviceView>, address: Seq<u8>, i: int)
    requires
        0 <= i < devices.len(),
        find_device(devices.subrange(0, i), address) is None,
    ensures
        devices[i].0 == address ==> find_device(devices.subrange(0, i + 1), address) == Some(i),
        devices[i].0 != address ==> find_device(devices.subrange(0, i + 1), address) is None,
{
    assert(devices.subrange(0, i + 1).drop_last() =~= devices.subrange(0, i));
}

/// `find_device` finds the first device with the address: its index is in range and
/// holds the address, no earlier device does; when it finds none, no device does.
pub proof fn lemma_find_device_spec(devices: Seq<DeviceView>, address: Seq<u8>)
    ensures
        find_device(devices, address) matches Some(i) ==> 0 <= i < devices.len() && devices[i].0 == address
            && forall|j: int| 0 <= j < i ==> devices[j].0 != address,
        find_device(devices, address) is None ==> forall|j: int| 0 <= j < devices.len() ==> devices[j].0 != address,
    decreases devices.len(),
{
    if devices.len() > 0 {
        lemma_find_device_spec(devices.drop_last(), address);
        assert forall|j: int| 0 <= j < devices.len() - 1 implies devices[j] == devices.drop_last()[j] by {}
    }
}

proof fn lemma_find_device_prefix(devices: Seq<DeviceView>, address: Seq<u8>, i: int)
    requires
        0 <= i < devices.len(),
        find_device(devices.subrange(0, i + 1), address) == Some(i),
    ensures
        find_device(devices, address) == Some(i),
    decreases devices.len(),
{
    if devices.len() > i + 1 {
        assert(devices.drop_last().subrange(0, i + 1) =~= devices.subrange(0, i + 1));
        lemma_find_device_prefix(devices.drop_last(), address, i);
    } else {
        assert(devices.subrange(0, i + 1) =~= devices);
    }
}

/// Whether two device addresses are equal, byte by byte.
pub fn same_address(a: &[u8; 6], b: &[u8; 6]) -> (r: bool)
    ensures
        r == (a@ == b@),
{
    let mut k: usize = 0;
    while k < 6
        invariant
            k <= 6,
            forall|j: int| 0 <= j < k ==> a@[j] == b@[j],
        decreases 6 - k,
    {
        if a[k] != b[k] {
            return false;
        }
        k = k + 1;
    }
    proof {
        assert(a@ =~= b@);
    }
    true
}

impl DeviceRegistry {
    /// At most 16 devices, each address once.
    #[verifier::type_invariant]
    spec fn well_formed(self) -> bool {
        &&& self.view().len() <= REGISTRY_CAPACITY
        &&& unique_addresses(self.view())
    }

    /// The devices, in the order they were first seen.
    pub closed spec fn view(self) -> Seq<DeviceView> {
        device_vec_items(self.devices).map_values(|d: BleDevice| d@)
    }

    /// An empty registry.
    pub fn new() -> (r: Self)
        ensures
            r.view() == Seq::<DeviceView>::empty(),
    {
        let devices = device_vec_new();
        proof {
            assert(device_vec_items(devices).map_values(|d: BleDevice| d@) =~= Seq::<DeviceView>::empty());
        }
        DeviceRegistry { devices }
    }

    /// The devices, in the order they were first seen.
    pub fn devices(&self) -> (r: &[BleDevice])
        ensures
            r@.map_values(|d: BleDevice| d@) == self.view(),
            r@.len() <= REGISTRY_CAPACITY,
            unique_addresses(self.view()),
    {
        proof {
            use_type_invariant(self);
        }
        device_vec_as_slice(&self.devices)
    }

    /// The index of the device with `address`, if the registry knows it.
    fn position(&self, address: &[u8; 6]) -> (r: Option<usize>)
        ensures
            match find_device(self.view(), address@) {
                Some(i) => r == Some(i as usize),
                None => r is None,
            },
            r matches Some(i) ==> (i as int) < self.view().len(),
    {
        let ghost devs = self.view();
        let ghost items = device_vec_items(self.devices);
        let slice = device_vec_as_slice(&self.devices);
        let n = slice.len();
        let mut i: usize = 0;
        proof {
            assert(devs.subrange(0, 0) =~= Seq::<DeviceView>::empty());
            if n == 0 {
                assert(devs =~= Seq::<DeviceView>::empty());
            }
        }
        while i < n
            invariant
                n == devs.len(),
                devs == self.view(),
                slice@ == items,
                devs == items.map_values(|d: BleDevice| d@),
                i <= n,
                find_device(devs.subrange(0, i as int), address@) is None,
            decreases n - i,
        {
            let found = same_address(&slice[i].address, address);
            proof {
                assert(devs[i as int] == items[i as int]@);
                lemma_find_device_step(devs, address@, i as int);
            }
            if found {
                proof {
                    lemma_find_device_prefix(devs, address@, i as int);
                }
                return Some(i);
            }
            i = i + 1;
        }
        proof {
            assert(devs.subrange(0, n as int) =~= devs);
        }
        None
    }

    /// Whether `update` accepts a report from `address` with signal strength `rssi`.
    pub fn can_update(&self, address: &[u8; 6], rssi: i8) -> (r: bool)
        ensures
            r == update_ok(self.view(), address@, rssi),
    {
        proof {
            use_type_invariant(self);
            lemma_find_device_spec(self.view(), address@);
        }
        let slice = device_vec_as_slice(&self.devices);
        match self.position(address) {
            Some(i) => {
                proof {
                    assert(self.view()[i as int] == slice@[i as int]@);
                }
                let d = slice[i].rssi.wrapping_sub(rssi);
                assert(d == i8_wrapping_sub(self.view()[i as int].1, rssi));
                d != -128
            },
            None => {
                assert(slice@.len() == self.view().len());
                slice.len() < REGISTRY_CAPACITY
            },
        }
    }

    /// Records a report from `address` with signal strength `rssi` and announcements
    /// `adv`, as `update_spec` says, and returns whether the report is news.
    pub fn update(&mut self, address: [u8; 6], rssi: i8, adv: AdvertisementData) -> (changed: bool)
        requires
            update_ok(old(self).view(), address@, rssi),
        ensures
            (final(self).view(), changed) == update_spec(old(self).view(), address@, rssi, adv@),
    {
        proof {
            use_type_invariant(&*self);
            lemma_update_keeps_one_record_per_device(self.view(), address@, rssi, adv@);
            lemma_find_device_spec(self.view(), address@);
        }
        let ghost devs = self.view();
        let pos = self.position(&address);
        let mut devices = device_vec_new();
        std::mem::swap(&mut devices, &mut self.devices);
        let ghost items = device_vec_items(devices);
        proof {
            assert(devs == items.map_values(|d: BleDevice| d@));
        }
        match pos {
            Some(i) => {
                proof {
                    assert(devs[i as int] == items[i as int]@);
                }
                let device = device_vec_get_mut(&mut devices, i);
                let d = device.rssi.wrapping_sub(rssi);
                let result_rssi = (if d < 0 { -d } else { d }) >= 12;
                device.rssi = rssi;
                let result_adv = device.adv.merge(adv);
                proof {
                    assert(device_vec_items(devices).map_values(|d: BleDevice| d@) =~= devs.update(i as int, (address@, rssi, merged(devs[i as int].2, adv@))));
                }
                self.devices = devices;
                result_rssi || result_adv
            },
            None => {
                let _ = device_vec_push(&mut devices, BleDevice { address, rssi, adv });
                proof {
                    assert(device_vec_items(devices).map_values(|d: BleDevice| d@) =~= devs.push((address@, rssi, adv@)));
                }
                self.devices = devices;
                true
            },
        }
    }
}


} // verus!
