use span::device::{DeviceId, DeviceInfo, Platform, TrustState};
use span::ui::{escape_xml, scale, trusted_device_summary, truncate, wide, HEIGHT, WIDTH};

fn device(name: &str, trust_state: TrustState) -> DeviceInfo {
    DeviceInfo {
        id: DeviceId::new(format!("{name}-id")).unwrap(),
        name: name.to_string(),
        platform: Platform::MacOs,
        trust_state,
        endpoint: None,
        public_key: None,
    }
}

#[test]
fn dpi_scaling_preserves_logical_layout() {
    assert_eq!(scale(WIDTH, 96), WIDTH);
    assert_eq!(scale(WIDTH, 144), 870);
    assert_eq!(scale(HEIGHT, 192), 1060);
}

#[test]
fn windows_text_is_utf16_and_terminated() {
    let text = wide("添加设备…");
    assert_eq!(text.last(), Some(&0));
    assert_eq!(String::from_utf16(&text[..text.len() - 1]).unwrap(), "添加设备…");
}

#[test]
fn scale_rounds_to_nearest_and_toward_zero_below_zero() {
    assert_eq!(scale(1, 120), 1);
    assert_eq!(scale(3, 120), 4);
    assert_eq!(scale(-100, 144), -149);
    assert_eq!(scale(0, 0), 0);
}

#[test]
fn wide_encodes_astral_characters_as_surrogate_pairs() {
    assert_eq!(wide("a😀"), vec![0x61, 0xd83d, 0xde00, 0]);
    assert_eq!(wide(""), vec![0]);
}

#[test]
fn truncate_marks_cut_labels() {
    assert_eq!(truncate("MacBook Pro", 20), "MacBook Pro");
    assert_eq!(truncate("MacBook Pro", 5), "MacB…");
    assert_eq!(truncate("设备名称很长", 3), "设备…");
    assert_eq!(truncate("abc", 0), "…");
    assert_eq!(truncate("", 0), "");
}

#[test]
fn summary_names_the_trusted_devices() {
    assert_eq!(trusted_device_summary(&[]), "添加一台设备");
    let devices = vec![device("Phone", TrustState::Discovered), device("Mac", TrustState::Trusted)];
    assert_eq!(trusted_device_summary(&devices), "Mac");
    let devices = vec![
        device("Mac", TrustState::Trusted),
        device("PC", TrustState::Trusted),
        device("Pad", TrustState::Trusted),
    ];
    assert_eq!(trusted_device_summary(&devices), "Mac  +2");
}

#[test]
fn escape_xml_escapes_markup() {
    assert_eq!(escape_xml("/Apps/a&b \"x\" <y>"), "/Apps/a&amp;b &quot;x&quot; &lt;y&gt;");
    assert_eq!(escape_xml("&amp;"), "&amp;amp;");
}
