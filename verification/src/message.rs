use vstd::prelude::*;

verus! {

/// A websocket frame as the relay and its clients exchange it: either text or raw bytes.
#[derive(Debug)]
pub enum Message {
    Text(String),
    Binary(Vec<u8>),
}

/// The bytes a message carries: a text frame carries the UTF-8 encoding of its text.
pub open spec fn message_data(m: Message) -> Seq<u8> {
    match m {
        Message::Text(s) => vstd::utf8::encode_utf8(s@),
        Message::Binary(b) => b@,
    }
}

impl Message {
    /// A text frame holding `s`.
    pub fn text(s: String) -> (m: Message)
        ensures
            m == Message::Text(s),
    {
        Message::Text(s)
    }

    /// A binary frame holding `s`.
    pub fn binary(s: Vec<u8>) -> (m: Message)
        ensures
            m == Message::Binary(s),
    {
        Message::Binary(s)
    }

    pub fn is_text(&self) -> (b: bool)
        ensures
            b == (*self is Text),
    {
        match self {
            Message::Text(_) => true,
            Message::Binary(_) => false,
        }
    }

    pub fn is_binary(&self) -> (b: bool)
        ensures
            b == (*self is Binary),
    {
        match self {
            Message::Text(_) => false,
            Message::Binary(_) => true,
        }
    }

    /// The bytes of the frame; a text frame gives the UTF-8 encoding of its text.
    pub fn into_data(self) -> (data: Vec<u8>)
        ensures
            data@ == message_data(self),
    {
        match self {
            Message::Text(s) => s.as_str().as_bytes_vec(),
            Message::Binary(b) => b,
        }
    }
}


impl From<Vec<u8>> for Message {
    fn from(v: Vec<u8>) -> (m: Message) {
        Message::Binary(v)
    }
}

impl vstd::std_specs::convert::FromSpecImpl<Vec<u8>> for Message {
    open spec fn obeys_from_spec() -> bool {
        true
    }

    open spec fn from_spec(v: Vec<u8>) -> Message {
        Message::Binary(v)
    }
}

impl From<String> for Message {
    fn from(s: String) -> (m: Message) {
        Message::Text(s)
    }
}

impl vstd::std_specs::convert::FromSpecImpl<String> for Message {
    open spec fn obeys_from_spec() -> bool {
        true
    }

    open spec fn from_spec(s: String) -> Message {
        Message::Text(s)
    }
}

/// What the relay protocol needs of a websocket frame type: build a binary frame, take out
/// the bytes, and read the text of a text frame.
pub trait WebSocketMessage: Sized {
    fn binary(data: Vec<u8>) -> Self;

    fn into_data(self) -> Vec<u8>;

    fn to_text<'a>(&'a self) -> Option<&'a str>;
}

impl WebSocketMessage for Message {
    fn binary(data: Vec<u8>) -> (m: Message)
        ensures
            m == Message::Binary(data),
    {
        Message::Binary(data)
    }

    fn into_data(self) -> (data: Vec<u8>)
        ensures
            data@ == message_data(self),
    {
        Message::into_data(self)
    }

    fn to_text<'a>(&'a self) -> (t: Option<&'a str>)
        ensures
            match *self {
                Message::Text(s) => t matches Some(r) && r@ == s@,
                Message::Binary(_) => t is None,
            },
    {
        match self {
            Message::Text(s) => Some(s.as_str()),
            Message::Binary(_) => None,
        }
    }
}

} // verus!
