use span::device::{broadcast_targets, ClipboardText, DeviceId, DeviceInfo, Platform, TrustState};

fn device(id: &str, name: &str, platform: Platform, trust_state: TrustState) -> DeviceInfo {
    DeviceInfo {
        id: DeviceId::new(id.to_string()).unwrap(),
        name: name.to_string(),
        platform,
        trust_state,
        endpoint: None,
        public_key: None,
    }
}

#[test]
fn only_trusted_devices_receive_broadcasts() {
    let trusted = DeviceInfo {
        id: DeviceId::new("trusted".to_string()).unwrap(),
        name: "MacBook".to_string(),
        platform: Platform::MacOs,
        trust_state: TrustState::Trusted,
        endpoint: Some("192.168.1.10".to_string()),
        public_key: Some("00".to_string()),
    };
    let discovered = DeviceInfo {
        id: DeviceId::new("discovered".to_string()).unwrap(),
        name: "Office PC".to_string(),
        platform: Platform::Windows,
        trust_state: TrustState::Discovered,
        endpoint: Some("192.168.1.11".to_string()),
        public_key: None,
    };

    let devices = vec![trusted.clone(), discovered];
    let targets = broadcast_targets(&devices);

    assert_eq!(targets, vec![&trusted]);
}

#[test]
fn text_preview_is_small() {
    let text = ClipboardText::new("1234567890".to_string()).unwrap();

    assert_eq!(text.preview(4), "1234…");
}

#[test]
fn broadcast_targets_keep_order_and_skip_every_other_state() {
    let devices = vec![
        device("a", "A", Platform::Linux, TrustState::Trusted),
        device("b", "B", Platform::Linux, TrustState::Pending),
        device("c", "C", Platform::Linux, TrustState::Blocked),
        device("d", "D", Platform::Linux, TrustState::Trusted),
        device("e", "E", Platform::Linux, TrustState::Revoked),
        device("f", "F", Platform::Linux, TrustState::Discovered),
    ];
    let targets = broadcast_targets(&devices);
    let ids: Vec<&str> = targets.iter().map(|d| d.id.as_str()).collect();
    assert_eq!(ids, vec!["a", "d"]);
    assert!(devices[0].can_receive_broadcast());
    assert!(!devices[1].can_receive_broadcast());
    assert!(broadcast_targets(&[]).is_empty());
}

#[test]
fn device_id_rejects_blank_text() {
    assert!(DeviceId::new(String::new()).is_none());
    assert!(DeviceId::new(" \t\n".to_string()).is_none());
    assert!(DeviceId::new("\u{3000}\u{a0}".to_string()).is_none());
    let id = DeviceId::new(" x ".to_string()).unwrap();
    assert_eq!(id.as_str(), " x ");
    assert_eq!(id.to_string(), " x ");
    assert_eq!(id.clone(), id);
}

#[test]
fn clipboard_text_rejects_only_empty_text() {
    assert!(ClipboardText::new(String::new()).is_none());
    let text = ClipboardText::new(" ".to_string()).unwrap();
    assert_eq!(text.as_str(), " ");
}

#[test]
fn preview_counts_characters_not_bytes() {
    let text = ClipboardText::new("剪贴板同步".to_string()).unwrap();
    assert_eq!(text.preview(2), "剪贴…");
    assert_eq!(text.preview(5), "剪贴板同步");
    assert_eq!(text.preview(9), "剪贴板同步");
    assert_eq!(text.preview(0), "…");
}
