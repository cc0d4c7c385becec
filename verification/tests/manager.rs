use span::crypto::{encode_hex, generate_keypair};
use span::device::{DeviceId, DeviceInfo, Platform, TrustState};
use span::manager::{
    accept_text, added_status, control_state, pairing_candidates, pairing_step, removal_step,
    removal_target, removed_status, reselect, same_id, selected_device, sender_key, PairingStep,
    RemovalStep,
};
use span::transport::encrypt_text;

fn device(id: &str, name: &str, trust_state: TrustState, key: Option<&str>) -> DeviceInfo {
    DeviceInfo {
        id: DeviceId::new(id.to_string()).unwrap(),
        name: name.to_string(),
        platform: Platform::MacOs,
        trust_state,
        endpoint: Some("192.168.1.20".to_string()),
        public_key: key.map(str::to_string),
    }
}

fn id(value: &str) -> DeviceId {
    DeviceId::new(value.to_string()).unwrap()
}

#[test]
fn identifiers_compare_by_text() {
    assert!(same_id(&id("mac-1"), &id("mac-1")));
    assert!(!same_id(&id("mac-1"), &id("mac-2")));
}

#[test]
fn pairing_offers_untrusted_devices_other_than_this_one() {
    let devices = vec![
        device("local", "This PC", TrustState::Discovered, None),
        device("a", "Laptop", TrustState::Discovered, None),
        device("b", "Phone", TrustState::Trusted, None),
        device("c", "Tablet", TrustState::Revoked, None),
        device("d", "Desk", TrustState::Pending, None),
    ];
    let ids: Vec<&str> = pairing_candidates(&devices, &id("local"))
        .iter()
        .map(|d| d.id.as_str())
        .collect();
    assert_eq!(ids, vec!["a", "c", "d"]);
    assert!(pairing_candidates(&[], &id("local")).is_empty());
}

#[test]
fn pairing_trusts_exactly_the_accepted_candidates() {
    let candidates = vec![
        device("a", "Laptop", TrustState::Discovered, None),
        device("b", "Laptop", TrustState::Discovered, None),
        device("c", "Tablet", TrustState::Discovered, None),
    ];
    assert_eq!(pairing_step(&[], &[]), PairingStep::NothingFound);
    assert_eq!(pairing_step(&candidates, &[false, false, false]), PairingStep::Cancelled);
    assert_eq!(
        pairing_step(&candidates, &[true, false, true]),
        PairingStep::Trust(vec![id("a"), id("c")])
    );
    assert_eq!(
        pairing_step(&candidates, &[false, true, false]),
        PairingStep::Trust(vec![id("b")])
    );
}

#[test]
fn pairing_status_lines() {
    assert_eq!(
        PairingStep::NothingFound.status(),
        "没有发现新设备。请确认另一台设备已打开 Span，且位于同一网络。"
    );
    assert_eq!(PairingStep::Cancelled.status(), "已取消添加，未共享剪贴板内容。");
    assert_eq!(PairingStep::Trust(vec![id("a")]).status(), "正在添加可信设备…");
    assert_eq!(added_status(2), "已添加 2 台可信设备。");
    assert_eq!(added_status(0), "已添加 0 台可信设备。");
}

#[test]
fn selection_follows_the_device_after_reload() {
    let shown = vec![
        device("a", "Same name", TrustState::Trusted, None),
        device("b", "Same name", TrustState::Trusted, None),
    ];
    let fresh = vec![
        device("c", "Other", TrustState::Trusted, None),
        device("b", "Same name", TrustState::Trusted, None),
        device("a", "Same name", TrustState::Trusted, None),
    ];
    assert_eq!(reselect(&shown, Some(1), &fresh), Some(1));
    assert_eq!(reselect(&shown, Some(0), &fresh), Some(2));
    assert_eq!(reselect(&shown, None, &fresh), None);
    assert_eq!(reselect(&shown, Some(5), &fresh), None);
    let without_b = vec![device("a", "Same name", TrustState::Trusted, None)];
    assert_eq!(reselect(&shown, Some(1), &without_b), None);
}

#[test]
fn removal_applies_to_the_selected_row_even_with_long_or_equal_names() {
    let long = "A very long device name that does not fit in the popup button at all".to_string();
    let trusted = vec![
        device("a", &long, TrustState::Trusted, None),
        device("b", &long, TrustState::Trusted, None),
    ];
    assert_eq!(removal_target(&trusted, 1).unwrap().id.as_str(), "b");
    assert_eq!(removal_target(&trusted, 0).unwrap().id.as_str(), "a");
    assert_eq!(removal_target(&trusted, -1).unwrap().id.as_str(), "a");
    assert!(removal_target(&trusted, 2).is_none());
    assert!(removal_target(&[], -1).is_none());

    assert_eq!(selected_device(&trusted, 1).unwrap().id.as_str(), "b");
    assert!(selected_device(&trusted, -1).is_none());
    assert!(selected_device(&trusted, 2).is_none());
}

#[test]
fn removal_needs_a_device_and_a_confirmation() {
    let d = device("b", "Phone", TrustState::Trusted, None);
    assert_eq!(removal_step(None, true), RemovalStep::NothingToRemove);
    assert_eq!(removal_step(Some(&d), false), RemovalStep::Cancelled);
    assert_eq!(removal_step(Some(&d), true), RemovalStep::Revoke(id("b")));
    assert_eq!(RemovalStep::NothingToRemove.status(), "暂无可移除的可信设备。");
    assert_eq!(RemovalStep::Cancelled.status(), "已取消移除。");
    assert_eq!(RemovalStep::Revoke(id("b")).status(), "正在移除设备…");
    assert_eq!(removed_status("Phone"), "已移除 Phone。");
}

#[test]
fn controls_follow_the_list_and_the_running_action() {
    let empty = control_state(false, -1, 0);
    assert!(!empty.list_visible);
    assert!(empty.add_enabled);
    assert!(!empty.list_enabled);
    assert!(!empty.remove_enabled);
    assert_eq!(empty.add_label, "添加设备…");

    let listed = control_state(false, 1, 2);
    assert!(listed.list_visible);
    assert!(listed.list_enabled);
    assert!(listed.remove_enabled);
    assert_eq!(listed.add_label, "添加另一台设备…");

    assert!(!control_state(false, -1, 2).remove_enabled);
    assert!(!control_state(false, 2, 2).remove_enabled);

    let busy = control_state(true, 0, 2);
    assert!(!busy.add_enabled);
    assert!(!busy.list_enabled);
    assert!(!busy.remove_enabled);
}

#[test]
fn sender_key_is_that_of_the_first_trusted_device_with_the_id() {
    let devices = vec![
        device("phone", "Phone", TrustState::Discovered, Some("11")),
        device("phone", "Phone", TrustState::Trusted, Some("22")),
        device("phone", "Phone", TrustState::Trusted, Some("33")),
        device("tablet", "Tablet", TrustState::Trusted, None),
    ];
    assert_eq!(sender_key(&devices, &id("phone")).map(String::as_str), Some("22"));
    assert_eq!(sender_key(&devices, &id("tablet")), None);
    assert_eq!(sender_key(&devices, &id("laptop")), None);
}

#[test]
fn receiver_accepts_only_trusted_senders() {
    let (sender_secret, sender_public) = generate_keypair();
    let (receiver_secret, receiver_public) = generate_keypair();
    let (_, stranger_public) = generate_keypair();
    let packet = encrypt_text(
        &id("phone"),
        &sender_secret,
        &encode_hex(&receiver_public),
        "hello from phone",
    )
    .unwrap();

    let trusted = vec![device("phone", "Phone", TrustState::Trusted, Some(&encode_hex(&sender_public)))];
    assert_eq!(
        accept_text(&trusted, &packet, &receiver_secret).unwrap(),
        Some("hello from phone".to_string())
    );

    let discovered =
        vec![device("phone", "Phone", TrustState::Discovered, Some(&encode_hex(&sender_public)))];
    assert_eq!(accept_text(&discovered, &packet, &receiver_secret).unwrap(), None);

    let revoked = vec![device("phone", "Phone", TrustState::Revoked, Some(&encode_hex(&sender_public)))];
    assert_eq!(accept_text(&revoked, &packet, &receiver_secret).unwrap(), None);

    let without_key = vec![device("phone", "Phone", TrustState::Trusted, None)];
    assert_eq!(accept_text(&without_key, &packet, &receiver_secret).unwrap(), None);

    let other_id = vec![device("tablet", "Tablet", TrustState::Trusted, Some(&encode_hex(&sender_public)))];
    assert_eq!(accept_text(&other_id, &packet, &receiver_secret).unwrap(), None);

    let wrong_key =
        vec![device("phone", "Phone", TrustState::Trusted, Some(&encode_hex(&stranger_public)))];
    assert!(accept_text(&wrong_key, &packet, &receiver_secret).is_err());
}
