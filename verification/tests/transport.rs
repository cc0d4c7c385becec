use span::crypto::{encode_hex, generate_keypair, shared_key, NONCE_BYTES};
use span::device::DeviceId;
use span::error::{ErrorKind, SpanError};
use span::transport::{
    decrypt_text, encrypt_text, read_packet, read_packet_panics_on, seal_text, write_packet,
    EncryptedTextPacket, KEY_INFO, MAX_CIPHERTEXT_BYTES,
};

#[test]
fn encrypted_packet_round_trip_preserves_header() {
    let packet = EncryptedTextPacket {
        from: DeviceId::new("macbook".to_string()).unwrap(),
        nonce: [7_u8; NONCE_BYTES],
        ciphertext: b"hello".to_vec(),
    };
    let mut bytes = Vec::new();

    write_packet(&mut bytes, &packet).unwrap();
    let decoded = read_packet(&bytes).unwrap();

    assert_eq!(decoded, packet);
}

#[test]
fn encrypt_then_decrypt_round_trip() {
    let (sender_private, sender_public) = generate_keypair();
    let (receiver_private, receiver_public) = generate_keypair();

    let encrypted = encrypt_text(
        &DeviceId::new("sender".to_string()).unwrap(),
        &sender_private,
        &encode_hex(&receiver_public),
        "hello from rs-cp",
    )
    .unwrap();

    let decrypted =
        decrypt_text(&encrypted, &receiver_private, &encode_hex(&sender_public)).unwrap();

    assert_eq!(decrypted, "hello from rs-cp");
}

#[test]
fn frame_is_one_tab_separated_line() {
    let packet = EncryptedTextPacket {
        from: DeviceId::new("pc".to_string()).unwrap(),
        nonce: [0xab_u8; NONCE_BYTES],
        ciphertext: vec![1, 2],
    };
    let mut bytes = b"x".to_vec();
    write_packet(&mut bytes, &packet).unwrap();
    let expected = format!("xRSCP_TEXT_V2\tpc\t{}\t0102\n", "ab".repeat(24));
    assert_eq!(String::from_utf8(bytes).unwrap(), expected);
}

#[test]
fn read_packet_ignores_what_follows_the_first_line() {
    let packet = EncryptedTextPacket {
        from: DeviceId::new("phone".to_string()).unwrap(),
        nonce: [1_u8; NONCE_BYTES],
        ciphertext: vec![9; 40],
    };
    let mut bytes = Vec::new();
    write_packet(&mut bytes, &packet).unwrap();
    bytes.extend_from_slice(b"garbage\xff\n");
    assert_eq!(read_packet(&bytes).unwrap(), packet);
}

#[test]
fn malformed_frames_give_each_error() {
    let nonce = "01".repeat(24);
    assert_eq!(read_packet(b"\xff\xfe\n"), Err(SpanError::HeaderNotUtf8));
    assert_eq!(read_packet(b""), Err(SpanError::BadMagic));
    assert_eq!(read_packet(b"RSCP_TEXT_V1\tid\n"), Err(SpanError::BadMagic));
    assert_eq!(read_packet(b"RSCP_TEXT_V2\n"), Err(SpanError::BadDeviceId));
    assert_eq!(read_packet(b"RSCP_TEXT_V2\t \t00\n"), Err(SpanError::BadDeviceId));
    assert_eq!(read_packet(b"RSCP_TEXT_V2\tid\n"), Err(SpanError::BadNonce));
    assert_eq!(read_packet(b"RSCP_TEXT_V2\tid\t0102\t00\n"), Err(SpanError::BadNonce));
    assert_eq!(
        read_packet(format!("RSCP_TEXT_V2\tid\t{nonce}\n").as_bytes()),
        Err(SpanError::BadCiphertext)
    );
    assert_eq!(
        read_packet(format!("RSCP_TEXT_V2\tid\t{nonce}\tzz\n").as_bytes()),
        Err(SpanError::BadCiphertext)
    );
    let big = "00".repeat(MAX_CIPHERTEXT_BYTES + 1);
    assert_eq!(
        read_packet(format!("RSCP_TEXT_V2\tid\t{nonce}\t{big}\n").as_bytes()),
        Err(SpanError::CiphertextTooLarge)
    );
    assert!(read_packet_panics_on(format!("RSCP_TEXT_V2\tid\t{nonce}\taé0\n").as_bytes()));
    assert!(!read_packet_panics_on(format!("RSCP_TEXT_V2\tid\t{nonce}\t00\n").as_bytes()));
    assert_eq!(SpanError::CiphertextTooLarge.kind(), ErrorKind::InvalidData);
}

#[test]
fn oversized_ciphertext_is_not_written() {
    let packet = EncryptedTextPacket {
        from: DeviceId::new("pc".to_string()).unwrap(),
        nonce: [0_u8; NONCE_BYTES],
        ciphertext: vec![0; MAX_CIPHERTEXT_BYTES + 1],
    };
    let mut bytes = vec![5];
    assert_eq!(write_packet(&mut bytes, &packet), Err(SpanError::CiphertextTooLargeToSend));
    assert_eq!(bytes, vec![5]);
    assert_eq!(SpanError::CiphertextTooLargeToSend.kind(), ErrorKind::InvalidInput);
}

#[test]
fn both_sides_agree_on_the_key_and_it_depends_on_the_info() {
    let (a_private, a_public) = generate_keypair();
    let (b_private, b_public) = generate_keypair();
    assert_ne!(a_private, a_public);
    let ab = shared_key(&a_private, &encode_hex(&b_public), &KEY_INFO).unwrap();
    let ba = shared_key(&b_private, &encode_hex(&a_public), &KEY_INFO).unwrap();
    assert_eq!(ab, ba);
    let other = shared_key(&a_private, &encode_hex(&b_public), b"other").unwrap();
    assert_ne!(ab, other);
    assert_ne!(ab, b_public);
}

#[test]
fn known_x25519_vector_gives_a_symmetric_key() {
    // RFC 7748, section 6.1.
    let alice_private = span::config::decode_key(
        "77076d0a7318a57d3c16c17251b26645df4c2f87ebc0992ab177fba51db92c2a",
    )
    .unwrap();
    let bob_private = span::config::decode_key(
        "5dab087e624a8a4b79e17f8b83800ee66f3bb1292618b6fd1c2f8b27ff88e0eb",
    )
    .unwrap();
    let alice_public = "8520f0098930a754748b7ddcb43ef75a0dbf3a0d26381af4eba4a98eaa9b4e6a";
    let bob_public = "de9edb7d7b7dc1b4d35b61c2ece435373f8343c85b78674dadfc7e146f882b4f";
    let k1 = shared_key(&alice_private, bob_public, &KEY_INFO).unwrap();
    let k2 = shared_key(&bob_private, alice_public, &KEY_INFO).unwrap();
    assert_eq!(k1, k2);
}

#[test]
fn shared_key_errors() {
    let (private, _) = generate_keypair();
    assert_eq!(shared_key(&private, "zz", &KEY_INFO), Err(SpanError::BadPeerPublicKey));
    assert_eq!(shared_key(&private, "abcd", &KEY_INFO), Err(SpanError::BadPeerPublicKeyLength));
    assert_eq!(
        encrypt_text(&DeviceId::new("x".to_string()).unwrap(), &private, "abcd", "hi"),
        Err(SpanError::BadPeerPublicKeyLength)
    );
}

#[test]
fn ciphertext_hides_the_text_and_wrong_keys_fail() {
    let (a_private, a_public) = generate_keypair();
    let (b_private, b_public) = generate_keypair();
    let (c_private, _) = generate_keypair();
    let from = DeviceId::new("a".to_string()).unwrap();
    let packet = encrypt_text(&from, &a_private, &encode_hex(&b_public), "secret text").unwrap();
    assert_eq!(packet.ciphertext.len(), "secret text".len() + 16);
    assert_ne!(&packet.ciphertext[..11], b"secret text");
    assert_eq!(packet.from.as_str(), "a");
    assert_eq!(
        decrypt_text(&packet, &c_private, &encode_hex(&a_public)),
        Err(SpanError::DecryptFailed)
    );
    let mut tampered = packet.clone();
    tampered.ciphertext[0] ^= 1;
    assert_eq!(
        decrypt_text(&tampered, &b_private, &encode_hex(&a_public)),
        Err(SpanError::DecryptFailed)
    );
    let again = encrypt_text(&from, &a_private, &encode_hex(&b_public), "secret text").unwrap();
    assert_ne!(again.nonce, packet.nonce);
}

#[test]
fn sealing_is_deterministic_for_a_given_nonce() {
    let key = [9u8; 32];
    let from = DeviceId::new("a".to_string()).unwrap();
    let p1 = seal_text(&from, &key, [1u8; 24], "剪贴板").unwrap();
    let p2 = seal_text(&from, &key, [1u8; 24], "剪贴板").unwrap();
    let p3 = seal_text(&from, &key, [2u8; 24], "剪贴板").unwrap();
    assert_eq!(p1, p2);
    assert_ne!(p1.ciphertext, p3.ciphertext);
    assert_eq!(p1.ciphertext.len(), "剪贴板".len() + 16);
}
