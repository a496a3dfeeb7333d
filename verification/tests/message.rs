use wherever::message::{Message, WebSocketMessage};

#[test]
fn text_frame_is_text() {
    let m = Message::text("hello".to_string());
    assert!(m.is_text());
    assert!(!m.is_binary());
    assert_eq!(m.to_text(), Some("hello"));
}

#[test]
fn binary_frame_is_binary() {
    let m = Message::binary(vec![1, 2, 3]);
    assert!(m.is_binary());
    assert!(!m.is_text());
    assert_eq!(m.to_text(), None);
    assert_eq!(m.into_data(), vec![1, 2, 3]);
}

#[test]
fn text_data_is_utf8() {
    let m = Message::text("é!".to_string());
    assert_eq!(m.into_data(), vec![0xc3, 0xa9, b'!']);
}

#[test]
fn from_conversions() {
    let m: Message = vec![9u8].into();
    assert!(m.is_binary());
    let t: Message = String::from("x").into();
    assert!(t.is_text());
    let b = <Message as WebSocketMessage>::binary(vec![4]);
    assert_eq!(WebSocketMessage::into_data(b), vec![4]);
}
