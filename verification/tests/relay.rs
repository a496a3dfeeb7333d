use noise_protocol::{CipherState, U8Array, DH};
use noise_rust_crypto::{ChaCha20Poly1305, X25519};
use wherever::crypto::{encrypt_client_message, key_from_base64, server_key_from_base64};
use wherever::relay::{relay_client_handshake, relay_server_handshake, RelayCipher};
use wherever::server::{connect_qr_code, encode_key, key_qr_code, WEB_CONNECT_HOST};
use wherever::tofu::{render_tofu_line, ClientMessage, Tofu, TofuEntry, TofuTable};

fn keypair() -> ([u8; 32], [u8; 32]) {
    let k = X25519::genkey();
    let mut key = [0u8; 32];
    key.copy_from_slice(k.as_slice());
    let pk = X25519::pubkey(&k);
    (key, pk)
}

fn relay_pair() -> (CipherState<ChaCha20Poly1305>, RelayCipher) {
    let key = [9u8; 32];
    (CipherState::new(&key, 0), RelayCipher { key, nonce: 0 })
}

#[test]
fn stored_key_of_32_bytes_loads() {
    let key = [5u8; 32];
    let text = base64::encode(key);
    assert_eq!(key_from_base64(&text), Some(Ok(key)));
}

#[test]
fn stored_key_of_other_length_reports_it() {
    assert_eq!(key_from_base64(&base64::encode([1u8; 16])), Some(Err(16)));
    assert_eq!(key_from_base64(""), Some(Err(0)));
}

#[test]
fn stored_key_that_does_not_decode_is_none() {
    assert_eq!(key_from_base64("not base64!"), None);
}

#[test]
fn server_key_takes_first_32_bytes() {
    let mut bytes = vec![3u8; 32];
    bytes.extend_from_slice(&[4u8; 8]);
    assert_eq!(server_key_from_base64(&base64::encode(&bytes)), Some([3u8; 32]));
    assert_eq!(server_key_from_base64(&base64::encode([3u8; 32])), Some([3u8; 32]));
}

#[test]
fn server_key_too_short_or_invalid_is_none() {
    assert_eq!(server_key_from_base64(&base64::encode([3u8; 31])), None);
    assert_eq!(server_key_from_base64("%%%"), None);
}

#[test]
fn encode_key_is_base64() {
    let text = encode_key(&[0u8; 32]);
    assert_eq!(text, format!("{}=", "A".repeat(43)));
    assert_eq!(encode_key(&[0xffu8; 32]), base64::encode([0xffu8; 32]));
}

#[test]
fn key_qr_code_shows_public_key() {
    let (key, pubkey) = keypair();
    let svg = key_qr_code(WEB_CONNECT_HOST, &key).unwrap();
    assert!(svg.contains("<svg"));
    assert_eq!(Some(svg), connect_qr_code(WEB_CONNECT_HOST, &pubkey));
    let other = key_qr_code(WEB_CONNECT_HOST, &[1u8; 32]).unwrap();
    assert_ne!(Some(other), connect_qr_code(WEB_CONNECT_HOST, &[1u8; 32]));
}

#[test]
fn relayed_message_is_received() {
    let (client, client_pub) = keypair();
    let (server, server_pub) = keypair();
    let (mut relay_side, mut cipher) = relay_pair();
    let mut table = TofuTable::new();
    let m = encrypt_client_message("https://example.org", client, server_pub, 3).unwrap();
    let frame = relay_side.encrypt_vec(&m);
    match table.receive_relayed_message(&mut cipher, &server, &frame) {
        Some(ClientMessage::Accepted(Some(t))) => assert_eq!(t, "https://example.org"),
        _ => panic!("expected the text"),
    }
    assert_eq!(table.get(&client_pub), Some(3));
    let again = relay_side.encrypt_vec(&m);
    assert!(matches!(
        table.receive_relayed_message(&mut cipher, &server, &again),
        Some(ClientMessage::StaleSequence)
    ));
}

#[test]
fn relayed_frame_that_does_not_decrypt_is_none() {
    let (client, client_pub) = keypair();
    let (server, server_pub) = keypair();
    let (mut relay_side, mut cipher) = relay_pair();
    let mut table = TofuTable::new();
    let m = encrypt_client_message("x", client, server_pub, 1).unwrap();
    let mut frame = relay_side.encrypt_vec(&m);
    frame[0] ^= 1;
    assert!(table.receive_relayed_message(&mut cipher, &server, &frame).is_none());
    assert!(table.receive_relayed_message(&mut cipher, &server, &[0u8; 10]).is_none());
    assert_eq!(table.get(&client_pub), None);
    assert_eq!(table.len(), 0);
}

#[test]
fn relayed_message_reaches_server_tofu() {
    let (client, client_pub) = keypair();
    let (server, server_pub) = keypair();
    let (mut relay_side, mut cipher) = relay_pair();
    let mut tofu = Tofu::from_lines((), &Vec::new());
    let m = encrypt_client_message("link", client, server_pub, 2).unwrap();
    let frame = relay_side.encrypt_vec(&m);
    match tofu.receive_relayed_message(&mut cipher, &server, &frame) {
        Some(Some(Ok(TofuEntry::Untrusted(e)))) => {
            assert_eq!(e.peek(), "link");
            assert_eq!(e.key, client_pub);
            assert_eq!(*e.key(), client_pub);
        }
        _ => panic!("expected an untrusted entry"),
    }
    let bad = vec![0u8; 40];
    assert!(tofu.receive_relayed_message(&mut cipher, &server, &bad).is_none());
}

#[test]
fn saved_lines_one_per_key() {
    let mut t = TofuTable::new();
    t.insert([1u8; 32], 1);
    t.insert([1u8; 32], 4);
    t.insert([2u8; 32], 2);
    t.insert([1u8; 32], 7);
    let lines = t.lines();
    assert_eq!(lines.len(), 2);
    assert_eq!(lines[0], render_tofu_line(&[1u8; 32], 7));
    assert_eq!(lines[1], render_tofu_line(&[2u8; 32], 2));
    let tofu = Tofu::from_lines((), &lines);
    let records = tofu.save_lines();
    assert_eq!(records.len(), 2);
    assert_eq!(records[0], format!("{}\n", render_tofu_line(&[1u8; 32], 7)));
    assert_eq!(records[1], format!("{}\n", render_tofu_line(&[2u8; 32], 2)));
}

#[test]
fn written_text_is_lines_with_newlines() {
    let mut t = TofuTable::new();
    t.insert([1u8; 32], 10);
    t.insert([2u8; 32], 20);
    let expected = format!(
        "{}\n{}\n",
        render_tofu_line(&[1u8; 32], 10),
        render_tofu_line(&[2u8; 32], 20)
    );
    assert_eq!(t.write(), expected);
    assert_eq!(
        render_tofu_line(&[0u8; 32], 5),
        format!("{}=,5", "A".repeat(43))
    );
}

#[test]
fn relay_handshake_agrees_on_keys() {
    let (client_key, client_pub) = keypair();
    let (client, hello) = relay_client_handshake(client_key).hello().unwrap();
    assert_eq!(hello.len(), 32);
    let server = relay_server_handshake().read_hello(&hello).unwrap();
    let (server, reply) = server.reply().unwrap();
    assert_eq!(reply.len(), 48);
    let client = client.read_reply(&reply).unwrap();
    let (last, mut client_cipher) = client.finish().unwrap();
    assert_eq!(last.len(), 64);
    assert_eq!(client_cipher.nonce, 0);
    let (rs, mut server_cipher) = server.read_final(&last).unwrap();
    assert_eq!(rs, client_pub);
    assert_eq!(server_cipher.nonce, 0);
    assert_eq!(server_cipher.key, client_cipher.key);
    let frame = server_cipher.encrypt(b"relayed");
    assert_eq!(frame.len(), 7 + 16);
    assert_eq!(server_cipher.nonce, 1);
    assert_eq!(client_cipher.decrypt(&frame), Some(b"relayed".to_vec()));
    assert_eq!(client_cipher.nonce, 1);
    assert_eq!(client_cipher.decrypt(&frame), None);
    assert_eq!(client_cipher.nonce, 1);
}

#[test]
fn relay_handshake_refuses_short_messages() {
    assert!(relay_server_handshake().read_hello(&[0u8; 31]).is_none());
    assert!(relay_server_handshake().read_hello(&[0u8; 32]).is_some());
    let (client, hello) = relay_client_handshake([1u8; 32]).hello().unwrap();
    assert!(client.read_reply(&[0u8; 47]).is_none());
    let (server, _) = relay_server_handshake().read_hello(&hello).unwrap().reply().unwrap();
    assert!(server.read_final(&[0u8; 63]).is_none());
}

#[test]
fn relay_handshake_refuses_tampered_reply() {
    let (client, hello) = relay_client_handshake([2u8; 32]).hello().unwrap();
    let (_, mut reply) = relay_server_handshake().read_hello(&hello).unwrap().reply().unwrap();
    reply[40] ^= 1;
    assert!(client.read_reply(&reply).is_none());
}

#[test]
fn relay_cipher_matches_noise_cipher_state() {
    let key = [7u8; 32];
    let mut noise = CipherState::<ChaCha20Poly1305>::new(&key, 5);
    let mut ours = RelayCipher { key, nonce: 5 };
    let a = noise.encrypt_vec(b"abc");
    assert_eq!(ours.encrypt(b"abc"), a);
    let mut reader = RelayCipher { key, nonce: 5 };
    assert_eq!(reader.decrypt(&a), Some(b"abc".to_vec()));
    let mut wrong = RelayCipher { key: [8u8; 32], nonce: 5 };
    assert_eq!(wrong.decrypt(&a), None);
    assert_eq!(wrong.nonce, 5);
}
