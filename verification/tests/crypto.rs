use noise_protocol::{U8Array, DH};
use noise_rust_crypto::X25519;
use wherever::crypto::{
    checked_decrypt_client_message, client_payload, decrypt_client_message,
    encrypt_client_message, frame_client_message, get_destination, key_from_slice,
    split_client_payload, ErrorKind,
};

fn keypair() -> ([u8; 32], [u8; 32]) {
    let k = X25519::genkey();
    let mut key = [0u8; 32];
    key.copy_from_slice(k.as_slice());
    let pk = X25519::pubkey(&k);
    (key, pk)
}

#[test]
fn payload_is_sequence_then_text() {
    let p = client_payload("hi", 0x0102030405060708);
    assert_eq!(p, vec![1, 2, 3, 4, 5, 6, 7, 8, b'h', b'i']);
}

#[test]
fn split_payload_reads_network_order() {
    let (seq, rest) = split_client_payload(vec![0, 0, 0, 0, 0, 0, 1, 2, b'x']);
    assert_eq!(seq, 258);
    assert_eq!(rest, vec![b'x']);
}

#[test]
fn frame_starts_with_server_key() {
    let key = [7u8; 32];
    let m = frame_client_message(&key, vec![1, 2]);
    assert_eq!(m.len(), 34);
    assert_eq!(&m[..32], &key[..]);
    assert_eq!(&m[32..], &[1, 2]);
}

#[test]
fn encrypt_then_decrypt_round_trip() {
    let (client, client_pub) = keypair();
    let (server, server_pub) = keypair();
    let msg = encrypt_client_message("https://example.com", client, server_pub, 5).unwrap();
    assert_eq!(&msg[..32], &server_pub[..]);
    assert_eq!(msg.len(), 32 + 8 + 19 + 96);
    let (k, seq, data) = decrypt_client_message(&msg, server).unwrap();
    assert_eq!(k, client_pub);
    assert_eq!(seq, 5);
    assert_eq!(data, b"https://example.com".to_vec());
}

#[test]
fn decrypt_with_wrong_key_fails() {
    let (client, _) = keypair();
    let (_, server_pub) = keypair();
    let (other, _) = keypair();
    let msg = encrypt_client_message("x", client, server_pub, 1).unwrap();
    assert_eq!(decrypt_client_message(&msg, other), Err(ErrorKind::Decryption));
}

#[test]
fn decrypt_short_message_is_too_short() {
    let (server, _) = keypair();
    assert_eq!(decrypt_client_message(&[0u8; 10], server), Err(ErrorKind::TooShort));
    assert_eq!(decrypt_client_message(&[0u8; 100], server), Err(ErrorKind::TooShort));
}

#[test]
fn checked_decrypt_flags_short_payload() {
    // A handshake message carrying a payload of fewer than eight bytes.
    let (client, _) = keypair();
    let (server, server_pub) = keypair();
    let mut hs = noise_protocol::HandshakeState::<
        X25519,
        noise_rust_crypto::ChaCha20Poly1305,
        noise_rust_crypto::Blake2b,
    >::new(
        noise_protocol::patterns::noise_x(),
        true,
        &server_pub[..],
        Some(U8Array::from_slice(&client)),
        None,
        Some(server_pub),
        None,
    );
    let c = hs.write_message_vec(&[1, 2, 3]).unwrap();
    let msg = frame_client_message(&server_pub, c);
    assert!(checked_decrypt_client_message(&msg, server).is_none());
    let (client2, client2_pub) = keypair();
    let good = encrypt_client_message("y", client2, server_pub, 9).unwrap();
    assert_eq!(
        checked_decrypt_client_message(&good, server),
        Some(Ok((client2_pub, 9, b"y".to_vec())))
    );
}

#[test]
fn destination_needs_more_than_a_key() {
    let mut m = vec![3u8; 32];
    assert_eq!(get_destination(&m), None);
    m.push(1);
    assert_eq!(get_destination(&m), Some([3u8; 32]));
    assert_eq!(key_from_slice(&m), [3u8; 32]);
}

#[test]
fn sequence_number_round_trip() {
    for n in [0u64, 1, 255, 256, u64::MAX] {
        let (seq, rest) = split_client_payload(client_payload("t", n));
        assert_eq!(seq, n);
        assert_eq!(rest, b"t".to_vec());
    }
}

#[test]
fn relay_routes_to_server_key() {
    let (client, _) = keypair();
    let (_, server_pub) = keypair();
    let msg = encrypt_client_message("", client, server_pub, 0).unwrap();
    assert_eq!(get_destination(&msg), Some(server_pub));
}
