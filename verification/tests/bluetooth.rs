use esp_start::bluetooth::adv_handler::AdvertisementHandler;
use esp_start::bluetooth::advertisement::{parse_advertisement_data, AdvertisementData, AdvertisementType};
use esp_start::bluetooth::event::{next, push, BluetoothEvent, BluetoothEventQueue};
use esp_start::bluetooth::manager::BluetoothManager;
use esp_start::bluetooth::registry::DeviceRegistry;
use esp_start::bluetooth::scanner::{next_scan_result, push_scan_result, ScanResults, ScannerResult};

fn result(address: [u8; 6], rssi: i8, data: &[u8]) -> ScannerResult {
    let mut buf = [0u8; 32];
    buf[..data.len()].copy_from_slice(data);
    ScannerResult { address, rssi, data_len: data.len(), data: buf }
}

#[test]
fn event_queue_keeps_latest_eight() {
    let mut q = BluetoothEventQueue::new();
    assert!(matches!(next(&mut q), None));
    push(&mut q, BluetoothEvent::Connected);
    for _ in 0..8 {
        push(&mut q, BluetoothEvent::Disconnected);
    }
    let mut n = 0;
    while let Some(e) = next(&mut q) {
        assert!(matches!(e, BluetoothEvent::Disconnected));
        n += 1;
    }
    assert_eq!(n, 8);
}

#[test]
fn scan_results_drop_oldest_when_full() {
    let mut r = ScanResults::new();
    for i in 0..40u8 {
        push_scan_result(&mut r, result([i, 0, 0, 0, 0, 0], -50, &[]));
    }
    let mut firsts = Vec::new();
    while let Some(x) = next_scan_result(&mut r) {
        firsts.push(x.address[0]);
    }
    assert_eq!(firsts, (8..40).collect::<Vec<u8>>());
}

#[test]
fn handler_queues_reports() {
    let mut h = AdvertisementHandler::new();
    let mut r = ScanResults::new();
    h.on_adv_report(&mut r, [1, 2, 3, 4, 5, 6], -40, &[2, 1, 6]);
    h.on_adv_report(&mut r, [9, 9, 9, 9, 9, 9], -70, &[]);
    let a = next_scan_result(&mut r).unwrap();
    assert_eq!(a.address, [1, 2, 3, 4, 5, 6]);
    assert_eq!(a.rssi, -40);
    assert_eq!(a.data_len, 3);
    assert_eq!(&a.data[..4], &[2, 1, 6, 0]);
    let b = next_scan_result(&mut r).unwrap();
    assert_eq!(b.data_len, 0);
    assert!(next_scan_result(&mut r).is_none());
}

#[test]
fn advertisement_type_codes() {
    assert!(matches!(AdvertisementType::try_from(0x01), Ok(AdvertisementType::Flags)));
    assert!(matches!(AdvertisementType::try_from(0x09), Ok(AdvertisementType::LocalName)));
    assert!(matches!(AdvertisementType::try_from(0x0A), Ok(AdvertisementType::TxPower)));
    assert!(matches!(AdvertisementType::try_from(0xFF), Ok(AdvertisementType::ManufacturerData)));
    assert!(AdvertisementType::try_from(0x02).is_err());
}

#[test]
fn parse_flags_name_and_power() {
    let data = [2, 0x01, 0x06, 5, 0x09, b'E', b'S', b'P', 0, 2, 0x0A, 0xF4, 3, 0xFF, 1, 2];
    let adv = parse_advertisement_data(&result([0; 6], 0, &data));
    assert_eq!(adv.flags, Some(6));
    assert_eq!(adv.local_name.as_deref(), Some("ESP"));
    assert_eq!(adv.tx_power, Some(-12));
}

#[test]
fn parse_stops_at_zero_length_or_overrun() {
    let adv = parse_advertisement_data(&result([0; 6], 0, &[0, 2, 0x01, 0x06]));
    assert_eq!(adv.flags, None);
    let adv = parse_advertisement_data(&result([0; 6], 0, &[2, 0x01, 0x05, 9, 0x09, b'x']));
    assert_eq!(adv.flags, Some(5));
    assert_eq!(adv.local_name, None);
}

#[test]
fn parse_rejects_invalid_utf8_names_and_ignores_data_past_length() {
    let adv = parse_advertisement_data(&result([0; 6], 0, &[3, 0x09, 0xFF, 0xFE]));
    assert_eq!(adv.local_name, None);
    let mut r = result([0; 6], 0, &[2, 0x01, 0x07]);
    r.data[3] = 2;
    r.data[4] = 0x0A;
    r.data[5] = 3;
    let adv = parse_advertisement_data(&r);
    assert_eq!(adv.flags, Some(7));
    assert_eq!(adv.tx_power, None);
}

#[test]
fn merge_takes_present_fields() {
    let mut a = AdvertisementData::default();
    let b = AdvertisementData { flags: Some(1), local_name: None, tx_power: Some(3) };
    assert!(a.merge(b));
    assert_eq!((a.flags, a.tx_power), (Some(1), Some(3)));
    assert!(!a.merge(AdvertisementData::default()));
    assert_eq!(a.flags, Some(1));
}

#[test]
fn registry_adds_then_updates_devices() {
    let mut r = DeviceRegistry::new();
    assert!(r.update([1; 6], -50, AdvertisementData::default()));
    assert!(!r.update([1; 6], -45, AdvertisementData::default()));
    assert!(r.update([1; 6], -60, AdvertisementData::default()));
    assert!(r.update([2; 6], -60, AdvertisementData::default()));
    let named = AdvertisementData { flags: None, local_name: Some(heapless::String::try_from("n").unwrap()), tx_power: None };
    assert!(r.update([1; 6], -60, named));
    let d = r.devices();
    assert_eq!(d.len(), 2);
    assert_eq!(d[0].address, [1; 6]);
    assert_eq!(d[0].rssi, -60);
    assert_eq!(d[0].adv.local_name.as_deref(), Some("n"));
    assert_eq!(d[1].address, [2; 6]);
}

#[test]
fn manager_polls_all_results() {
    let mut m = BluetoothManager::new();
    let mut r = ScanResults::new();
    push_scan_result(&mut r, result([1; 6], -50, &[2, 0x01, 0x06]));
    push_scan_result(&mut r, result([2; 6], -50, &[]));
    push_scan_result(&mut r, result([1; 6], -52, &[]));
    assert!(m.poll(&mut r));
    assert!(next_scan_result(&mut r).is_none());
    assert_eq!(m.devices().devices().len(), 2);
    assert_eq!(m.devices().devices()[0].rssi, -52);
    assert_eq!(m.devices().devices()[0].adv.flags, Some(6));
    push_scan_result(&mut r, result([2; 6], -55, &[]));
    assert!(!m.poll(&mut r));
}

#[test]
fn registry_refuses_a_seventeenth_device_and_wrapping_rssi() {
    let mut r = DeviceRegistry::new();
    for i in 0..16u8 {
        assert!(r.can_update(&[i; 6], -40));
        assert!(r.update([i; 6], -40, AdvertisementData::default()));
    }
    assert!(!r.can_update(&[99; 6], -40));
    assert!(r.can_update(&[3; 6], -40));
    assert_eq!(r.devices().len(), 16);
    let mut s = DeviceRegistry::new();
    assert!(s.update([7; 6], 0, AdvertisementData::default()));
    assert!(!s.can_update(&[7; 6], -128));
    assert!(s.can_update(&[7; 6], -127));
}

#[test]
fn registry_keeps_one_record_per_address() {
    let mut r = DeviceRegistry::new();
    for round in 0..3i8 {
        for i in 0..5u8 {
            r.update([i; 6], -30 - round, AdvertisementData::default());
        }
    }
    let d = r.devices();
    assert_eq!(d.len(), 5);
    for (k, device) in d.iter().enumerate() {
        assert_eq!(device.address, [k as u8; 6]);
        assert_eq!(device.rssi, -32);
    }
}

#[test]
fn manager_records_one_result() {
    let mut m = BluetoothManager::new();
    let first = result([4; 6], -70, &[2, 0x0A, 0xF6]);
    assert!(m.can_record(&first));
    assert!(m.record(first));
    assert_eq!(m.devices().devices()[0].adv.tx_power, Some(-10));
    assert!(!m.record(result([4; 6], -65, &[])));
    assert!(m.record(result([4; 6], -53, &[])));
    let mut too_long = result([5; 6], -70, &[]);
    too_long.data_len = 33;
    assert!(!m.can_record(&too_long));
}

#[test]
fn parse_longest_and_multibyte_names() {
    let mut data = vec![31u8, 0x09];
    data.extend_from_slice(&[b'a'; 30]);
    let adv = parse_advertisement_data(&result([0; 6], 0, &data));
    assert_eq!(adv.local_name.as_deref(), Some("a".repeat(30).as_str()));
    let adv = parse_advertisement_data(&result([0; 6], 0, &[4, 0x09, 0xC3, 0xA9, b'!']));
    assert_eq!(adv.local_name.as_deref(), Some("é!"));
}
