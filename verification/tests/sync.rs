use span::device::{DeviceId, DeviceInfo, Platform, TrustState};
use span::sync::{
    delivery_targets, find_trusted_peer, should_suppress, AnnounceSchedule, ChangeCount, ClipboardAction,
    ClipboardWatch, ANNOUNCE_INTERVAL_MILLIS,
};

#[test]
fn received_text_is_not_sent_back() {
    let mut suppressed = Some("from phone".to_string());
    assert!(!should_suppress(&mut suppressed, "other"));
    assert_eq!(suppressed, Some("from phone".to_string()));
    assert!(should_suppress(&mut suppressed, "from phone"));
    assert_eq!(suppressed, None);
    assert!(!should_suppress(&mut suppressed, "from phone"));
}

#[test]
fn watch_reads_only_on_a_change() {
    let mut watch = ClipboardWatch::new(None, Some(7));
    assert!(!watch.should_read(false, ChangeCount::Known(7)));
    assert!(watch.should_read(true, ChangeCount::Known(7)));
    assert!(watch.should_read(false, ChangeCount::Known(8)));
    assert_eq!(watch.last_change_count, Some(8));
    assert!(!watch.should_read(false, ChangeCount::Unsupported));
    assert!(watch.should_read(true, ChangeCount::Unsupported));
    assert!(watch.should_read(false, ChangeCount::Failed));
    assert_eq!(watch.last_change_count, Some(8));
}

#[test]
fn watch_broadcasts_new_text_once_and_suppresses_echoes() {
    let mut watch = ClipboardWatch::new(Some("old".to_string()), None);
    let mut suppressed = Some("remote".to_string());
    assert_eq!(watch.on_text(Some("old".to_string()), &mut suppressed), ClipboardAction::Skip);
    assert_eq!(watch.on_text(None, &mut suppressed), ClipboardAction::Skip);
    assert_eq!(
        watch.on_text(Some("new".to_string()), &mut suppressed),
        ClipboardAction::Broadcast("new".to_string())
    );
    assert_eq!(watch.on_text(Some("new".to_string()), &mut suppressed), ClipboardAction::Skip);
    assert_eq!(watch.on_text(Some("remote".to_string()), &mut suppressed), ClipboardAction::Suppressed);
    assert_eq!(suppressed, None);
    assert_eq!(watch.last_text, Some("remote".to_string()));
}

#[test]
fn text_goes_only_to_trusted_devices_with_address_and_key() {
    let make = |id: &str, trust_state, endpoint: Option<&str>, key: Option<&str>| DeviceInfo {
        id: DeviceId::new(id.to_string()).unwrap(),
        name: id.to_string(),
        platform: Platform::Linux,
        trust_state,
        endpoint: endpoint.map(str::to_string),
        public_key: key.map(str::to_string),
    };
    let devices = vec![
        make("a", TrustState::Trusted, Some("10.0.0.1"), Some("00")),
        make("b", TrustState::Trusted, None, Some("00")),
        make("c", TrustState::Trusted, Some("10.0.0.3"), None),
        make("d", TrustState::Discovered, Some("10.0.0.4"), Some("00")),
        make("e", TrustState::Trusted, Some("10.0.0.5"), Some("00")),
    ];
    let ids: Vec<&str> = delivery_targets(&devices).iter().map(|d| d.id.as_str()).collect();
    assert_eq!(ids, vec!["a", "e"]);
}

#[test]
fn peer_lookup_takes_the_first_trusted_device_at_the_host() {
    let make = |id: &str, trust_state, endpoint: Option<&str>| DeviceInfo {
        id: DeviceId::new(id.to_string()).unwrap(),
        name: id.to_string(),
        platform: Platform::Windows,
        trust_state,
        endpoint: endpoint.map(str::to_string),
        public_key: None,
    };
    let devices = vec![
        make("blocked", TrustState::Blocked, Some("10.0.0.2")),
        make("none", TrustState::Trusted, None),
        make("first", TrustState::Trusted, Some("10.0.0.2")),
        make("second", TrustState::Trusted, Some("10.0.0.2")),
    ];
    assert_eq!(find_trusted_peer(&devices, "10.0.0.2").unwrap().id.as_str(), "first");
    assert!(find_trusted_peer(&devices, "10.0.0.3").is_none());
}

#[test]
fn daemon_announces_at_once_and_then_every_fifteen_seconds() {
    let mut schedule = AnnounceSchedule::new(1_000);
    assert!(schedule.due(1_000));
    assert_eq!(schedule.next_announce_millis, 16_000);
    assert!(!schedule.due(1_500));
    assert!(!schedule.due(15_999));
    assert_eq!(schedule.next_announce_millis, 16_000);
    assert!(schedule.due(16_000));
    assert_eq!(schedule.next_announce_millis, 31_000);
    assert!(schedule.due(40_000));
    assert_eq!(schedule.next_announce_millis, 40_000 + ANNOUNCE_INTERVAL_MILLIS);
    assert_eq!(ANNOUNCE_INTERVAL_MILLIS, 15_000);
}
