use span::config::{LocalDevice, sanitize};
use span::device::{DeviceId, Platform, TrustState};
use span::discovery::{decode_packet, encode_packet, validate_public_key, DiscoveryPacket};
use span::span_discovery::{self, decode_message, DiscoveryMessage, PROBE_MAGIC};

#[test]
fn discovery_packet_round_trip_preserves_device() {
    let packet = DiscoveryPacket {
        id: DeviceId::new("abc".to_string()).unwrap(),
        name: "MacBook".to_string(),
        platform: Platform::MacOs,
        public_key: "aa".repeat(32),
    };

    assert_eq!(decode_packet(&encode_packet(&packet)), Some(packet.clone()));
    assert_eq!(
        decode_message(&span_discovery::encode_packet(&packet)),
        Some(DiscoveryMessage::Announcement(packet))
    );
    assert_eq!(decode_message(PROBE_MAGIC), Some(DiscoveryMessage::Probe));
}

#[test]
fn announcement_lines_are_tab_separated() {
    let packet = DiscoveryPacket {
        id: DeviceId::new("macbook-1723281000000".to_string()).unwrap(),
        name: "Mac\tBook".to_string(),
        platform: Platform::MacOs,
        public_key: "aa".repeat(32),
    };
    assert_eq!(
        span_discovery::encode_packet(&packet),
        format!("SPAN_DISCOVERY_V2\tmacbook-1723281000000\tMac Book\tmacos\t{}", "aa".repeat(32))
    );
    let read = decode_packet(&encode_packet(&packet)).unwrap();
    assert_eq!(read.name, sanitize("Mac\tBook"));
}

#[test]
fn announcements_from_other_dialects_or_with_bad_keys_are_ignored() {
    let key = "aa".repeat(32);
    let rscp = format!("RSCP_DISCOVERY_V2\tid\tname\tlinux\t{key}");
    let spn = format!("SPAN_DISCOVERY_V2\tid\tname\tlinux\t{key}");
    assert!(decode_packet(&rscp).is_some());
    assert!(decode_packet(&spn).is_none());
    assert!(decode_message(&rscp).is_none());
    assert!(decode_message(&spn).is_some());
    assert!(decode_message(&format!("SPAN_DISCOVERY_V2\tid\tname\tlinux\t{}", "aa".repeat(31))).is_none());
    assert!(decode_message("SPAN_DISCOVERY_V2\tid\tname\tlinux").is_none());
    assert!(decode_message(&format!("SPAN_DISCOVERY_V2\t \tname\tlinux\t{key}")).is_none());
    assert_eq!(decode_message("  SPAN_DISCOVERY_PROBE_V1\n"), Some(DiscoveryMessage::Probe));
    assert!(span_discovery::decode_message_panics_on("SPAN_DISCOVERY_V2\tid\tname\tlinux\taé0"));
    assert!(!span_discovery::decode_message_panics_on(&spn));
}

#[test]
fn validate_public_key_keeps_the_text() {
    assert_eq!(validate_public_key(&"AB".repeat(32)), Some("AB".repeat(32)));
    assert_eq!(validate_public_key("abcd"), None);
}

#[test]
fn local_device_announcement_becomes_discovered_device() {
    let local = LocalDevice {
        id: DeviceId::new("pc-1".to_string()).unwrap(),
        name: "PC".to_string(),
        platform: Platform::Windows,
        private_key: [3u8; 32],
        public_key: [4u8; 32],
    };
    let packet = DiscoveryPacket::from_local(&local);
    assert_eq!(packet.public_key, "04".repeat(32));
    let info = decode_packet(&encode_packet(&packet)).unwrap().into_device_info();
    assert_eq!(info.id.as_str(), "pc-1");
    assert_eq!(info.name, "PC");
    assert_eq!(info.platform, Platform::Windows);
    assert_eq!(info.trust_state, TrustState::Discovered);
    assert_eq!(info.endpoint, None);
    assert_eq!(info.public_key, Some("04".repeat(32)));
}
