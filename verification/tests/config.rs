use span::config::{
    decode_key, new_local_device, parse_local_device, parse_local_device_panics, parse_platform,
    platform_name, sanitize, serialize_local_device,
};
use span::crypto::encode_hex;
use span::device::Platform;

const PLATFORMS: [Platform; 7] = [
    Platform::Windows,
    Platform::MacOs,
    Platform::Linux,
    Platform::Android,
    Platform::Ios,
    Platform::IpadOs,
    Platform::Unknown,
];

#[test]
fn platform_names_round_trip() {
    for platform in PLATFORMS {
        assert_eq!(parse_platform(platform_name(platform)), platform);
    }
    assert_eq!(platform_name(Platform::MacOs), "macos");
    assert_eq!(parse_platform("MacOS"), Platform::Unknown);
    assert_eq!(parse_platform("plan9"), Platform::Unknown);
}

#[test]
fn sanitize_replaces_field_breaks() {
    assert_eq!(sanitize("a\tb\nc\rd e"), "a b c d e");
}

#[test]
fn local_device_record_round_trip() {
    let device = new_local_device(
        "Office\tPC".to_string(),
        1_723_281_000_000,
        Platform::Linux,
        [1u8; 32],
        [2u8; 32],
    );
    assert_eq!(device.id.as_str(), "Office\tPC-1723281000000");
    let mut device = device;
    device.id = span::device::DeviceId::new("office-1".to_string()).unwrap();
    let line = serialize_local_device(&device);
    assert_eq!(
        line,
        format!("office-1\tOffice PC\tlinux\t{}\t{}\n", "01".repeat(32), "02".repeat(32))
    );
    assert_eq!(line.matches('\t').count(), 4);
    assert!(line.ends_with('\n'));
    let read = parse_local_device(&line).unwrap();
    assert_eq!(read.id.as_str(), "office-1");
    assert_eq!(read.name, "Office PC");
    assert_eq!(read.platform, Platform::Linux);
    assert_eq!(read.private_key, [1u8; 32]);
    assert_eq!(read.public_key, [2u8; 32]);
    assert_eq!(read.public_key_hex(), encode_hex(&[2u8; 32]));
}

#[test]
fn malformed_local_device_records_are_refused() {
    let key = "ab".repeat(32);
    assert!(parse_local_device("").is_none());
    assert!(parse_local_device(&format!(" \tname\tlinux\t{key}\t{key}")).is_none());
    assert!(parse_local_device(&format!("id\tname\tlinux\t{key}")).is_none());
    assert!(parse_local_device(&format!("id\tname\tlinux\tabcd\t{key}")).is_none());
    assert!(parse_local_device(&format!("id\tname\tlinux\t{key}\tzz")).is_none());
    let device = parse_local_device(&format!("id\tname\tbeos\t{key}\t{key}\textra")).unwrap();
    assert_eq!(device.platform, Platform::Unknown);
    assert!(parse_local_device_panics(&format!("id\tname\tlinux\taé0\t{key}")));
    assert!(!parse_local_device_panics(&format!("id\tname\tlinux\t{key}\t{key}")));
}

#[test]
fn decode_key_wants_exactly_32_bytes() {
    assert_eq!(decode_key(&"0f".repeat(32)), Some([0x0f; 32]));
    assert_eq!(decode_key(&"0f".repeat(31)), None);
    assert_eq!(decode_key(&"0f".repeat(33)), None);
}
