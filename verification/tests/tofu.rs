use noise_protocol::DH;
use noise_rust_crypto::X25519;
use wherever::crypto::encrypt_client_message;
use wherever::tofu::{
    parse_tofu_line, render_tofu_line, ClientMessage, Tofu, TofuEntry, TofuTable,
};

fn keypair() -> ([u8; 32], [u8; 32]) {
    let k = X25519::genkey();
    let mut key = [0u8; 32];
    key.copy_from_slice(&*k);
    let pk = X25519::pubkey(&k);
    (key, pk)
}

#[test]
fn insert_accepts_new_and_higher() {
    let mut t = TofuTable::new();
    let k = [1u8; 32];
    assert!(t.insert(k, 5));
    assert_eq!(t.get(&k), Some(5));
    assert!(!t.insert(k, 5));
    assert!(!t.insert(k, 3));
    assert_eq!(t.get(&k), Some(5));
    assert!(t.insert(k, 6));
    assert_eq!(t.get(&k), Some(6));
    assert_eq!(t.len(), 1);
}

#[test]
fn check_unknown_key_is_none() {
    let mut t = TofuTable::new();
    assert_eq!(t.check(&[2u8; 32], 1), None);
    assert_eq!(t.len(), 0);
}

#[test]
fn replay_is_refused() {
    let mut t = TofuTable::new();
    let k = [4u8; 32];
    t.insert(k, 0);
    assert_eq!(t.check(&k, 10), Some(true));
    assert_eq!(t.check(&k, 10), Some(false));
    assert_eq!(t.check(&k, 9), Some(false));
    assert_eq!(t.get(&k), Some(10));
}

#[test]
fn line_round_trip() {
    let k = [0xabu8; 32];
    let line = render_tofu_line(&k, 1234);
    assert_eq!(line, format!("{},1234", base64::encode(k)));
    assert_eq!(parse_tofu_line(&line), Some((k, 1234)));
}

#[test]
fn parse_line_rejects_bad_input() {
    assert_eq!(parse_tofu_line("no comma"), None);
    assert_eq!(parse_tofu_line("AAAA,5"), None);
    let good = render_tofu_line(&[1u8; 32], 7);
    assert_eq!(parse_tofu_line(&format!("{},extra", good)), Some(([1u8; 32], 7)));
    let b64 = base64::encode([1u8; 32]);
    assert_eq!(parse_tofu_line(&format!("{},x", b64)), None);
    assert_eq!(parse_tofu_line(&format!("{},+8", b64)), Some(([1u8; 32], 8)));
}

#[test]
fn lines_load_back() {
    let mut t = TofuTable::new();
    t.insert([1u8; 32], 3);
    t.insert([2u8; 32], 0);
    let lines = t.lines();
    assert_eq!(lines.len(), 2);
    let back = TofuTable::from_lines(&lines);
    assert_eq!(back.get(&[1u8; 32]), Some(3));
    assert_eq!(back.get(&[2u8; 32]), Some(0));
    assert_eq!(back.len(), 2);
}

#[test]
fn later_line_overrides_earlier() {
    let lines = vec![
        render_tofu_line(&[1u8; 32], 9),
        "garbage".to_string(),
        render_tofu_line(&[1u8; 32], 2),
    ];
    let t = TofuTable::from_lines(&lines);
    assert_eq!(t.get(&[1u8; 32]), Some(2));
    assert_eq!(t.len(), 1);
}

#[test]
fn text_round_trip() {
    let mut t = TofuTable::new();
    t.insert([5u8; 32], 11);
    t.insert([6u8; 32], 12);
    let text = t.write();
    assert!(text.ends_with('\n'));
    let back = TofuTable::read(&text);
    assert_eq!(back.get(&[5u8; 32]), Some(11));
    assert_eq!(back.get(&[6u8; 32]), Some(12));
    let crlf = text.replace('\n', "\r\n");
    assert_eq!(TofuTable::read(&crlf).get(&[6u8; 32]), Some(12));
}

#[test]
fn decrypt_unknown_then_trust_then_trusted() {
    let (client, client_pub) = keypair();
    let (server, server_pub) = keypair();
    let mut tofu = Tofu::from_lines("store".to_string(), &Vec::new());
    let m1 = encrypt_client_message("first", client, server_pub, 1).unwrap();
    let entry = match tofu.decrypt_message(&server, &m1) {
        Ok(TofuEntry::Untrusted(e)) => e,
        _ => panic!("expected an untrusted entry"),
    };
    assert_eq!(entry.peek(), "first");
    assert_eq!(entry.key, client_pub);
    assert_eq!(entry.trust(&mut tofu), Some("first".to_string()));
    let m2 = encrypt_client_message("second", client, server_pub, 2).unwrap();
    match tofu.decrypt_message(&server, &m2) {
        Ok(TofuEntry::Trusted(s)) => assert_eq!(s, "second"),
        _ => panic!("expected a trusted message"),
    }
    assert!(tofu.decrypt_message(&server, &m2).is_err());
    assert!(tofu.decrypt_message(&server, &m1).is_err());
    assert_eq!(tofu.allowed().get(&client_pub), Some(2));
    assert_eq!(tofu.save_lines().len(), 1);
    assert_eq!(tofu.storage_mut().as_str(), "store");
}

#[test]
fn untrusted_check_after_trust() {
    let (client, client_pub) = keypair();
    let (server, server_pub) = keypair();
    let mut tofu = Tofu::from_lines((), &Vec::new());
    let m = encrypt_client_message("hello", client, server_pub, 4).unwrap();
    let entry = match tofu.checked_decrypt_message(&server, &m) {
        Some(Ok(TofuEntry::Untrusted(e))) => e,
        _ => panic!("expected an untrusted entry"),
    };
    let entry = match entry.check(&mut tofu) {
        Err(e) => e,
        Ok(_) => panic!("key is unknown"),
    };
    tofu.trust(client_pub);
    match entry.check(&mut tofu) {
        Ok(m) => assert_eq!(m, Some("hello".to_string())),
        Err(_) => panic!("key is trusted now"),
    }
    assert_eq!(tofu.allowed().get(&client_pub), Some(4));
}

#[test]
fn trust_known_key_keeps_number() {
    let mut tofu = Tofu::from_lines((), &vec![render_tofu_line(&[8u8; 32], 40)]);
    tofu.trust([8u8; 32]);
    assert_eq!(tofu.allowed().get(&[8u8; 32]), Some(40));
}

#[test]
fn browser_client_trusts_on_first_use() {
    let (client, _) = keypair();
    let (server, server_pub) = keypair();
    let mut t = TofuTable::new();
    let m = encrypt_client_message("link", client, server_pub, 3).unwrap();
    match t.receive_client_message(&server, &m) {
        Some(ClientMessage::Accepted(Some(s))) => assert_eq!(s, "link"),
        _ => panic!("expected the message"),
    }
    assert!(matches!(t.receive_client_message(&server, &m), Some(ClientMessage::StaleSequence)));
    assert!(matches!(
        t.receive_client_message(&server, &m[..50]),
        Some(ClientMessage::Unreadable)
    ));
}

#[test]
fn trusted_client_fresh_message_is_trusted() {
    let (client, client_pub) = keypair();
    let (server, server_pub) = keypair();
    let mut tofu = Tofu::from_lines((), &vec![render_tofu_line(&client_pub, 10)]);
    let stale = encrypt_client_message("old", client, server_pub, 10).unwrap();
    assert!(tofu.decrypt_message(&server, &stale).is_err());
    let fresh = encrypt_client_message("new", client, server_pub, 11).unwrap();
    match tofu.decrypt_message(&server, &fresh) {
        Ok(TofuEntry::Trusted(s)) => assert_eq!(s, "new"),
        _ => panic!("expected a trusted message"),
    }
}

#[test]
fn decimal_and_base64_fields_round_trip() {
    for n in [0u64, 9, 10, 99, 100, u64::MAX] {
        let k = [n as u8; 32];
        assert_eq!(parse_tofu_line(&render_tofu_line(&k, n)), Some((k, n)));
    }
}
