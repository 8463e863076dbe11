use esp_start::net::client::{ClientAction, HttpClientState, PollReport, TcpReadOutcome};
use esp_start::sd::time::DummyTimeSource;
use esp_start::sd::volume::SdStorageError;

#[test]
fn dummy_time_is_fixed() {
    let t = DummyTimeSource.get_timestamp();
    assert_eq!(
        (t.year_since_1970, t.zero_indexed_month, t.zero_indexed_day, t.hours, t.minutes, t.seconds),
        (56, 8, 10, 0, 0, 0)
    );
}

#[test]
fn sd_errors_report_missing_card() {
    let e: SdStorageError<u8, u16> = SdStorageError::from_card(3, true);
    assert!(matches!(e, SdStorageError::CardNotFound));
    let e: SdStorageError<u8, u16> = SdStorageError::from_card(3, false);
    assert!(matches!(e, SdStorageError::Card(3)));
    let e: SdStorageError<u8, u16> = SdStorageError::from_filesystem(9, false);
    assert!(matches!(e, SdStorageError::Filesystem(9)));
    let e: SdStorageError<u8, u16> = SdStorageError::from_filesystem(9, true);
    assert!(matches!(e, SdStorageError::CardNotFound));
}

#[test]
fn http_client_connects_only_when_request_sent() {
    assert!(HttpClientState::after_connect(true, true, true, 0).is_connected());
    assert!(!HttpClientState::after_connect(true, false, true, 0).is_connected());
    assert!(!HttpClientState::after_connect(true, true, false, 0).is_connected());
    assert!(!HttpClientState::after_connect(false, true, true, 0).is_connected());
}

#[test]
fn http_client_poll_reports() {
    let buf = b"HTTP/1.1 200 OK\xff";
    let mut c = HttpClientState::after_connect(true, true, true, 0);
    assert!(matches!(c.on_read(TcpReadOutcome::TimedOut, buf, 100), PollReport::Idle));
    match c.on_read(TcpReadOutcome::Received(15), buf, 100) {
        PollReport::Text(t) => assert_eq!(t, "HTTP/1.1 200 OK"),
        other => panic!("unexpected {:?}", other),
    }
    assert!(matches!(c.on_read(TcpReadOutcome::Received(16), buf, 100), PollReport::NonUtf8));
    assert!(c.is_connected());
    assert!(matches!(c.on_read(TcpReadOutcome::Closed, buf, 100), PollReport::ConnectionClosed));
    assert!(!c.is_connected());
    assert!(matches!(c.on_read(TcpReadOutcome::Received(3), buf, 100), PollReport::NotConnected));
    let mut d = HttpClientState::after_connect(true, true, true, 0);
    assert!(matches!(d.on_read(TcpReadOutcome::Failed, buf, 100), PollReport::ReadFailed));
    assert!(!d.is_connected());
}

#[test]
fn http_client_retries_five_seconds_after_losing_its_connection() {
    let buf = [0u8; 4];
    let mut c = HttpClientState::after_connect(true, true, true, 0);
    assert_eq!(c.next_action(1_000), ClientAction::Read);
    assert!(matches!(c.on_read(TcpReadOutcome::Closed, &buf, 2_000), PollReport::ConnectionClosed));
    assert_eq!(c.next_action(2_000), ClientAction::Wait);
    assert_eq!(c.next_action(6_999), ClientAction::Wait);
    assert_eq!(c.next_action(7_000), ClientAction::Reconnect);
    let failed = HttpClientState::after_connect(false, false, false, 10_000);
    assert_eq!(failed.next_action(14_999), ClientAction::Wait);
    assert_eq!(failed.next_action(15_000), ClientAction::Reconnect);
    let again = HttpClientState::after_connect(true, true, true, 15_000);
    assert_eq!(again.next_action(15_001), ClientAction::Read);
}
