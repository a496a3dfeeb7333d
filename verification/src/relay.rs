use vstd::prelude::*;
use noise_protocol::patterns::noise_xn;
use noise_protocol::{CipherState, HandshakeState, U8Array};
use noise_rust_crypto::{Blake2b, ChaCha20Poly1305, X25519};
use crate::crypto::{spec_x25519_pubkey, Key, Pubkey};

verus! {

// ---------------------------------------------------------------------------
// The transport cipher of a relay connection
// ---------------------------------------------------------------------------

/// What ChaCha20-Poly1305 (as noise-protocol's `CipherState` uses it, with empty associated
/// data) decrypts from `frame` under `key` and `nonce`; `None` where the tag does not verify.
pub uninterp spec fn spec_relay_open(key: Seq<u8>, nonce: u64, frame: Seq<u8>) -> Option<Seq<u8>>;

/// What ChaCha20-Poly1305 (as noise-protocol's `CipherState` uses it, with empty associated
/// data) encrypts `plaintext` to under `key` and `nonce`: the ciphertext and its 16-byte tag.
pub uninterp spec fn spec_relay_seal(key: Seq<u8>, nonce: u64, plaintext: Seq<u8>) -> Seq<u8>;

/// noise-protocol's `CipherState::new(key, nonce)` then `decrypt_vec(frame)`, with the
/// error mapped to `None`. The claims: the result is the name applied to the arguments; a
/// frame shorter than the 16-byte tag is refused; a plaintext is the frame less the tag.
/// `decrypt_ad` panics when a frame decrypts at nonce `u64::MAX`, which `requires` leaves out.
#[verifier::external_body]
fn chacha_open(key: &[u8; 32], nonce: u64, frame: &[u8]) -> (r: Option<Vec<u8>>)
    requires
        nonce < u64::MAX,
    ensures
        match spec_relay_open(key@, nonce, frame@) {
            Some(p) => r matches Some(v) && v@ == p,
            None => r is None,
        },
        frame@.len() < 16 ==> r is None,
        r matches Some(p) ==> p@.len() + 16 == frame@.len(),
{
    CipherState::<ChaCha20Poly1305>::new(key, nonce).decrypt_vec(frame).ok()
}

/// noise-protocol's `CipherState::new(key, nonce)` then `encrypt_vec(plaintext)`. The
/// claims: the result is the name applied to the arguments, it is the plaintext plus the
/// 16-byte tag, and decrypting it under the same key and nonce gives the plaintext back (the
/// AEAD property of ChaCha20-Poly1305). `encrypt_ad` panics at nonce `u64::MAX`, which
/// `requires` leaves out.
#[verifier::external_body]
fn chacha_seal(key: &[u8; 32], nonce: u64, plaintext: &[u8]) -> (c: Vec<u8>)
    requires
        nonce < u64::MAX,
    ensures
        c@ == spec_relay_seal(key@, nonce, plaintext@),
        c@.len() == plaintext@.len() + 16,
        spec_relay_open(key@, nonce, c@) == Some(plaintext@),
{
    CipherState::<ChaCha20Poly1305>::new(key, nonce).encrypt_vec(plaintext)
}

/// One direction of a relay connection's transport: the ChaCha20-Poly1305 key that the
/// handshake derived and the nonce of the next frame.
pub struct RelayCipher {
    pub key: [u8; 32],
    pub nonce: u64,
}

impl RelayCipher {
    /// Decrypts the next frame: on success the plaintext, and the nonce moves on by one; a
    /// frame that does not decrypt gives `None` and leaves the cipher as it was.
    pub fn decrypt(&mut self, frame: &[u8]) -> (r: Option<Vec<u8>>)
        requires
            old(self).nonce < u64::MAX,
        ensures
            final(self).key == old(self).key,
            match spec_relay_open(old(self).key@, old(self).nonce, frame@) {
                Some(p) => r matches Some(v) && v@ == p && final(self).nonce == old(self).nonce + 1,
                None => r is None && final(self).nonce == old(self).nonce,
            },
    {
        let r = chacha_open(&self.key, self.nonce, frame);
        if r.is_some() {
            self.nonce = self.nonce + 1;
        }
        r
    }

    /// Encrypts the next frame, and the nonce moves on by one. A cipher with the same key and
    /// nonce decrypts the frame back to `plaintext`.
    pub fn encrypt(&mut self, plaintext: &[u8]) -> (c: Vec<u8>)
        requires
            old(self).nonce < u64::MAX,
        ensures
            final(self).key == old(self).key,
            final(self).nonce == old(self).nonce + 1,
            c@ == spec_relay_seal(old(self).key@, old(self).nonce, plaintext@),
            c@.len() == plaintext@.len() + 16,
            spec_relay_open(old(self).key@, old(self).nonce, c@) == Some(plaintext@),
    {
        let c = chacha_seal(&self.key, self.nonce, plaintext);
        self.nonce = self.nonce + 1;
        c
    }
}

// ---------------------------------------------------------------------------
// The relay handshake: Noise_XN_25519_ChaChaPoly_BLAKE2b, the client initiating
// ---------------------------------------------------------------------------

/// What one party of an `XN` handshake (empty prologue) holds: its static private key (empty
/// for the relay, which has none), its ephemeral private key (drawn when it writes its first
/// message), and the handshake messages exchanged so far, in order.
pub struct XnSession {
    pub static_key: Seq<u8>,
    pub ephemeral: Seq<u8>,
    pub sent: Seq<Seq<u8>>,
}

/// The message that an `XN` party (initiator or not) with these keys writes around `payload`
/// after the messages `sent` (noise-protocol's `HandshakeState::write_message_vec`).
pub uninterp spec fn spec_xn_write(
    static_key: Seq<u8>,
    ephemeral: Seq<u8>,
    initiator: bool,
    sent: Seq<Seq<u8>>,
    payload: Seq<u8>,
) -> Seq<u8>;

/// The payload that an `XN` party with these keys reads from `msg` after the messages `sent`;
/// `None` where the read fails (`HandshakeState::read_message_vec`).
pub uninterp spec fn spec_xn_read(
    static_key: Seq<u8>,
    ephemeral: Seq<u8>,
    initiator: bool,
    sent: Seq<Seq<u8>>,
    msg: Seq<u8>,
) -> Option<Seq<u8>>;

/// The key of the responder-to-initiator cipher that an `XN` party with these keys derives
/// once the messages `sent` have been exchanged (`HandshakeState::get_ciphers`).
pub uninterp spec fn spec_xn_split(
    static_key: Seq<u8>,
    ephemeral: Seq<u8>,
    initiator: bool,
    sent: Seq<Seq<u8>>,
) -> Seq<u8>;

/// The remote static public key that an `XN` party with these keys holds once the messages
/// `sent` have been exchanged (`HandshakeState::get_rs`).
pub uninterp spec fn spec_xn_remote_static(
    static_key: Seq<u8>,
    ephemeral: Seq<u8>,
    initiator: bool,
    sent: Seq<Seq<u8>>,
) -> Option<Seq<u8>>;

/// noise-protocol's `HandshakeState<X25519, ChaCha20Poly1305, Blake2b>`, kept opaque: its
/// type parameters are bounded by noise-protocol's traits. The stage types below hold it
/// with the model of what it holds, and say which message comes next, so that each step is
/// only taken in its turn. Only the trusted steps below make stage values.
#[verifier::external_body]
struct XnState {
    hs: HandshakeState<X25519, ChaCha20Poly1305, Blake2b>,
}

/// The client before its first message.
pub struct RelayClientStart {
    st: XnState,
    model: Ghost<XnSession>,
}

/// The client after its first message, waiting for the relay's reply.
pub struct RelayClientSent {
    st: XnState,
    model: Ghost<XnSession>,
}

/// The client after the relay's reply, before its last message.
pub struct RelayClientReplied {
    st: XnState,
    model: Ghost<XnSession>,
}

/// The client after its last message.
struct RelayClientDone {
    st: XnState,
    model: Ghost<XnSession>,
}

/// The relay before the client's first message.
pub struct RelayServerStart {
    st: XnState,
    model: Ghost<XnSession>,
}

/// The relay after the client's first message, before its reply.
pub struct RelayServerHelloRead {
    st: XnState,
    model: Ghost<XnSession>,
}

/// The relay after its reply, waiting for the client's last message.
pub struct RelayServerReplied {
    st: XnState,
    model: Ghost<XnSession>,
}

/// The relay after the client's last message.
struct RelayServerDone {
    st: XnState,
    model: Ghost<XnSession>,
}

impl View for RelayClientStart {
    type V = XnSession;

    closed spec fn view(&self) -> XnSession {
        self.model@
    }
}

impl View for RelayClientSent {
    type V = XnSession;

    closed spec fn view(&self) -> XnSession {
        self.model@
    }
}

impl View for RelayClientReplied {
    type V = XnSession;

    closed spec fn view(&self) -> XnSession {
        self.model@
    }
}

impl View for RelayClientDone {
    type V = XnSession;

    closed spec fn view(&self) -> XnSession {
        self.model@
    }
}

impl View for RelayServerStart {
    type V = XnSession;

    closed spec fn view(&self) -> XnSession {
        self.model@
    }
}

impl View for RelayServerHelloRead {
    type V = XnSession;

    closed spec fn view(&self) -> XnSession {
        self.model@
    }
}

impl View for RelayServerReplied {
    type V = XnSession;

    closed spec fn view(&self) -> XnSession {
        self.model@
    }
}

impl View for RelayServerDone {
    type V = XnSession;

    closed spec fn view(&self) -> XnSession {
        self.model@
    }
}

/// `HandshakeState::new` with pattern `XN` as initiator, static key `static_key` and an
/// empty prologue. The claim: the state holds `static_key` and no message yet.
#[verifier::external_body]
fn xn_initiator(static_key: &Key) -> (h: RelayClientStart)
    ensures
        h@.static_key == static_key@,
        h@.sent == Seq::<Seq<u8>>::empty(),
{
    RelayClientStart {
        st: XnState {
            hs: HandshakeState::new(noise_xn(), true, &[], Some(U8Array::from_slice(static_key)),
                None, None, None),
        },
        model: Ghost(vstd::pervasive::arbitrary()),
    }
}

/// `HandshakeState::new` with pattern `XN` as responder, without static key and with an
/// empty prologue. The claim: the state holds no static key and no message yet.
#[verifier::external_body]
fn xn_responder() -> (h: RelayServerStart)
    ensures
        h@.static_key == Seq::<u8>::empty(),
        h@.sent == Seq::<Seq<u8>>::empty(),
{
    RelayServerStart {
        st: XnState { hs: HandshakeState::new(noise_xn(), false, &[], None, None, None, None) },
        model: Ghost(vstd::pervasive::arbitrary()),
    }
}

/// `write_message_vec` for the first message of `XN` (token `e`), which draws the client's
/// ephemeral key. The claims: it succeeds (no DH and no PSK token, so `write_message` has no
/// error to return); the message is the ephemeral public key followed by the payload (there
/// is no cipher key yet); it is the name applied to the new state; the static key is kept.
#[verifier::external_body]
fn xn_client_hello(h: RelayClientStart, payload: &[u8]) -> (r: Result<(RelayClientSent, Vec<u8>), ()>)
    ensures
        r is Ok,
        r matches Ok((s, m)) ==> {
            &&& s@.static_key == h@.static_key
            &&& s@.ephemeral.len() == 32
            &&& m@ == spec_x25519_pubkey(s@.ephemeral) + payload@
            &&& m@.len() == payload@.len() + 32
            &&& m@ == spec_xn_write(s@.static_key, s@.ephemeral, true, h@.sent, payload@)
            &&& s@.sent == h@.sent.push(m@)
        },
{
    let mut st = h.st;
    match st.hs.write_message_vec(payload) {
        Ok(m) => Ok((RelayClientSent { st, model: Ghost(vstd::pervasive::arbitrary()) }, m)),
        Err(_) => Err(()),
    }
}

/// `read_message_vec` for the first message of `XN` (token `e`), whose overhead is the
/// 32-byte key. The claims: it succeeds exactly when the message is that long (reading `e`
/// and an unencrypted payload cannot fail otherwise); the payload is the rest; the message
/// joins the state.
#[verifier::external_body]
fn xn_server_read_hello(h: RelayServerStart, msg: &[u8]) -> (r: Result<(RelayServerHelloRead, Vec<u8>), ()>)
    ensures
        r is Ok <==> msg@.len() >= 32,
        r matches Ok((s, p)) ==> {
            &&& p@ == msg@.skip(32)
            &&& s@.static_key == h@.static_key
            &&& s@.sent == h@.sent.push(msg@)
        },
{
    let mut st = h.st;
    match st.hs.read_message_vec(msg) {
        Ok(p) => Ok((RelayServerHelloRead { st, model: Ghost(vstd::pervasive::arbitrary()) }, p)),
        Err(_) => Err(()),
    }
}

/// `write_message_vec` for the second message of `XN` (tokens `e, ee`), which draws the
/// relay's ephemeral key. The claims: it succeeds (`<X25519 as DH>::dh` always returns `Ok`,
/// no PSK token); the message starts with the relay's ephemeral public key and is the payload
/// plus that key and the payload's 16-byte tag; it is the name applied to the new state. And
/// the Noise property of this message: a client whose ephemeral public key began the first
/// message reads this one back to `payload` (X25519 gives both sides the same `ee`, and both
/// have hashed the same messages).
#[verifier::external_body]
fn xn_server_reply(h: RelayServerHelloRead, payload: &[u8]) -> (r: Result<(RelayServerReplied, Vec<u8>), ()>)
    ensures
        r is Ok,
        r matches Ok((s, m)) ==> {
            &&& s@.static_key == h@.static_key
            &&& s@.ephemeral.len() == 32
            &&& m@.len() == payload@.len() + 48
            &&& m@.take(32) == spec_x25519_pubkey(s@.ephemeral)
            &&& m@ == spec_xn_write(s@.static_key, s@.ephemeral, false, h@.sent, payload@)
            &&& s@.sent == h@.sent.push(m@)
            &&& forall|cs: Seq<u8>, ce: Seq<u8>|
                ce.len() == 32 && h@.sent.len() == 1 && h@.sent[0].take(32) == spec_x25519_pubkey(ce)
                    ==> #[trigger] spec_xn_read(cs, ce, true, h@.sent, m@) == Some(payload@)
        },
{
    let mut st = h.st;
    match st.hs.write_message_vec(payload) {
        Ok(m) => Ok((RelayServerReplied { st, model: Ghost(vstd::pervasive::arbitrary()) }, m)),
        Err(_) => Err(()),
    }
}

/// `read_message_vec` for the second message of `XN` (tokens `e, ee`), whose overhead is
/// the 32-byte key and the payload's 16-byte tag. The claims: the result is the name applied
/// to the state and the message; a shorter message is refused (`TooShort`); a payload is the
/// message less the overhead; the message joins the state.
#[verifier::external_body]
fn xn_client_read_reply(h: RelayClientSent, msg: &[u8]) -> (r: Result<(RelayClientReplied, Vec<u8>), ()>)
    ensures
        msg@.len() < 48 ==> r is Err,
        match spec_xn_read(h@.static_key, h@.ephemeral, true, h@.sent, msg@) {
            Some(p) => r matches Ok((s, q)) && q@ == p && s@.static_key == h@.static_key
                && s@.ephemeral == h@.ephemeral && s@.sent == h@.sent.push(msg@),
            None => r is Err,
        },
        r matches Ok((_, p)) ==> p@.len() + 48 == msg@.len(),
{
    let mut st = h.st;
    match st.hs.read_message_vec(msg) {
        Ok(p) => Ok((RelayClientReplied { st, model: Ghost(vstd::pervasive::arbitrary()) }, p)),
        Err(_) => Err(()),
    }
}

/// `write_message_vec` for the third message of `XN` (tokens `s, se`). The claims: it
/// succeeds (`dh` always returns `Ok`, no PSK token); the message is the payload plus the
/// encrypted static key (48 bytes) and the payload's tag; it is the name applied to the new
/// state. And the Noise property of this message: a relay whose ephemeral public key began
/// the reply that the client read, having exchanged the same two messages, reads this one
/// back to `payload`, learns the client's static public key, and derives the same
/// responder-to-initiator key (X25519 gives both sides the same `ee` and `se`).
#[verifier::external_body]
fn xn_client_final(h: RelayClientReplied, payload: &[u8]) -> (r: Result<(RelayClientDone, Vec<u8>), ()>)
    ensures
        r is Ok,
        r matches Ok((s, m)) ==> {
            &&& s@.static_key == h@.static_key
            &&& s@.ephemeral == h@.ephemeral
            &&& m@.len() == payload@.len() + 64
            &&& m@ == spec_xn_write(h@.static_key, h@.ephemeral, true, h@.sent, payload@)
            &&& s@.sent == h@.sent.push(m@)
            &&& forall|re: Seq<u8>|
                re.len() == 32 && h@.sent.len() == 2 && h@.sent[1].take(32) == spec_x25519_pubkey(re)
                    ==> {
                    &&& #[trigger] spec_xn_read(Seq::<u8>::empty(), re, false, h@.sent, m@) == Some(payload@)
                    &&& spec_xn_remote_static(Seq::<u8>::empty(), re, false, h@.sent.push(m@))
                        == Some(spec_x25519_pubkey(h@.static_key))
                    &&& spec_xn_split(Seq::<u8>::empty(), re, false, h@.sent.push(m@))
                        == spec_xn_split(h@.static_key, h@.ephemeral, true, h@.sent.push(m@))
                }
        },
{
    let mut st = h.st;
    match st.hs.write_message_vec(payload) {
        Ok(m) => Ok((RelayClientDone { st, model: Ghost(vstd::pervasive::arbitrary()) }, m)),
        Err(_) => Err(()),
    }
}

/// `get_ciphers` of the finished handshake: its second cipher (from responder to initiator),
/// taken apart by `extract` into key and nonce. The claims: the key is the name applied to
/// the state, and the nonce is 0, as `SymmetricState::split` makes both ciphers.
#[verifier::external_body]
fn xn_client_cipher(h: RelayClientDone) -> (c: RelayCipher)
    ensures
        c.key@ == spec_xn_split(h@.static_key, h@.ephemeral, true, h@.sent),
        c.nonce == 0,
{
    let (k, nonce) = h.st.hs.get_ciphers().1.extract();
    let mut key = [0u8; 32];
    key.copy_from_slice(k.as_slice());
    RelayCipher { key, nonce }
}

/// `read_message_vec` for the third message of `XN` (tokens `s, se`), whose overhead is the
/// encrypted static key (48 bytes) and the payload's tag. The claims: the result is the name
/// applied to the state and the message; a shorter message is refused (`TooShort`); a
/// payload is the message less the overhead; the message joins the state.
#[verifier::external_body]
fn xn_server_read_final(h: RelayServerReplied, msg: &[u8]) -> (r: Result<(RelayServerDone, Vec<u8>), ()>)
    ensures
        msg@.len() < 64 ==> r is Err,
        match spec_xn_read(h@.static_key, h@.ephemeral, false, h@.sent, msg@) {
            Some(p) => r matches Ok((s, q)) && q@ == p && s@.static_key == h@.static_key
                && s@.ephemeral == h@.ephemeral && s@.sent == h@.sent.push(msg@),
            None => r is Err,
        },
        r matches Ok((_, p)) ==> p@.len() + 64 == msg@.len(),
{
    let mut st = h.st;
    match st.hs.read_message_vec(msg) {
        Ok(p) => Ok((RelayServerDone { st, model: Ghost(vstd::pervasive::arbitrary()) }, p)),
        Err(_) => Err(()),
    }
}

/// `get_rs` and `get_ciphers` of the finished handshake: the client's static key, and the
/// second cipher (from responder to initiator) taken apart by `extract`. The claims: the key
/// is the name applied to the state, and the successful read of the client's `s` token has
/// set it; the cipher's key is the name applied to the state, and its nonce is 0.
#[verifier::external_body]
fn xn_server_finish(h: RelayServerDone) -> (r: (Option<Pubkey>, RelayCipher))
    ensures
        r.0 is Some,
        r.0 matches Some(k) ==> Some(k@) == spec_xn_remote_static(
            h@.static_key,
            h@.ephemeral,
            false,
            h@.sent,
        ),
        r.1.key@ == spec_xn_split(h@.static_key, h@.ephemeral, false, h@.sent),
        r.1.nonce == 0,
{
    let (k, nonce) = h.st.hs.get_ciphers().1.extract();
    let mut key = [0u8; 32];
    key.copy_from_slice(k.as_slice());
    (h.st.hs.get_rs(), RelayCipher { key, nonce })
}

/// The client's side of the relay handshake, holding its static key.
pub fn relay_client_handshake(static_key: Key) -> (h: RelayClientStart)
    ensures
        h@.static_key == static_key@,
        h@.sent == Seq::<Seq<u8>>::empty(),
{
    xn_initiator(&static_key)
}

/// The relay's side of the relay handshake: no static key, no message yet.
pub fn relay_server_handshake() -> (h: RelayServerStart)
    ensures
        h@.static_key == Seq::<u8>::empty(),
        h@.sent == Seq::<Seq<u8>>::empty(),
{
    xn_responder()
}

impl RelayClientStart {
    /// The client's first message: its new ephemeral public key (32 bytes, the payload is
    /// empty).
    pub fn hello(self) -> (r: Option<(RelayClientSent, Vec<u8>)>)
        ensures
            r matches Some((s, m)) && {
                &&& m@.len() == 32
                &&& m@ == spec_x25519_pubkey(s@.ephemeral)
                &&& s@.ephemeral.len() == 32
                &&& s@.static_key == self@.static_key
                &&& s@.sent == self@.sent.push(m@)
            },
    {
        let empty: Vec<u8> = Vec::new();
        match xn_client_hello(self, empty.as_slice()) {
            Ok((s, m)) => {
                proof {
                    assert(m@ == spec_x25519_pubkey(s@.ephemeral) + Seq::<u8>::empty());
                    assert(spec_x25519_pubkey(s@.ephemeral) + Seq::<u8>::empty()
                        =~= spec_x25519_pubkey(s@.ephemeral));
                }
                Some((s, m))
            },
            Err(_) => None,
        }
    }
}

impl RelayServerStart {
    /// Reads the client's first message; `None` exactly when it is shorter than the 32-byte
    /// ephemeral key. Its payload is not used.
    pub fn read_hello(self, msg: &[u8]) -> (r: Option<RelayServerHelloRead>)
        ensures
            r is Some <==> msg@.len() >= 32,
            r matches Some(s) ==> s@.static_key == self@.static_key && s@.sent == self@.sent.push(
                msg@,
            ),
    {
        match xn_server_read_hello(self, msg) {
            Ok((h, _)) => Some(h),
            Err(_) => None,
        }
    }
}

impl RelayServerHelloRead {
    /// The relay's reply: its new ephemeral public key and the empty payload's tag (48
    /// bytes). A client whose ephemeral public key was the first message reads it.
    pub fn reply(self) -> (r: Option<(RelayServerReplied, Vec<u8>)>)
        ensures
            r matches Some((s, m)) && {
                &&& m@.len() == 48
                &&& m@.take(32) == spec_x25519_pubkey(s@.ephemeral)
                &&& s@.ephemeral.len() == 32
                &&& s@.static_key == self@.static_key
                &&& s@.sent == self@.sent.push(m@)
                &&& forall|cs: Seq<u8>, ce: Seq<u8>|
                    ce.len() == 32 && self@.sent.len() == 1 && self@.sent[0].take(32)
                        == spec_x25519_pubkey(ce) ==> #[trigger] spec_xn_read(
                        cs,
                        ce,
                        true,
                        self@.sent,
                        m@,
                    ) == Some(Seq::<u8>::empty())
            },
    {
        let empty: Vec<u8> = Vec::new();
        match xn_server_reply(self, empty.as_slice()) {
            Ok(x) => Some(x),
            Err(_) => None,
        }
    }
}

impl RelayClientSent {
    /// Reads the relay's reply: `Some` exactly when the read succeeds, as for the reply of
    /// the relay that read this client's first message; never for fewer than 48 bytes. Its
    /// payload is not used.
    pub fn read_reply(self, msg: &[u8]) -> (r: Option<RelayClientReplied>)
        ensures
            msg@.len() < 48 ==> r is None,
            r is Some <==> spec_xn_read(self@.static_key, self@.ephemeral, true, self@.sent, msg@)
                is Some,
            r matches Some(s) ==> s@.static_key == self@.static_key && s@.ephemeral
                == self@.ephemeral && s@.sent == self@.sent.push(msg@),
    {
        match xn_client_read_reply(self, msg) {
            Ok((h, _)) => Some(h),
            Err(_) => None,
        }
    }
}

impl RelayClientReplied {
    /// The client's last message (its encrypted static key, 64 bytes with the empty
    /// payload's tag) and the cipher of the frames that the relay will send, at nonce 0. The
    /// relay that sent the reply this client read, on reading this message, learns the
    /// client's static public key and derives the same cipher key.
    pub fn finish(self) -> (r: Option<(Vec<u8>, RelayCipher)>)
        ensures
            r matches Some((m, c)) && {
                &&& m@.len() == 64
                &&& c.nonce == 0
                &&& c.key@ == spec_xn_split(
                    self@.static_key,
                    self@.ephemeral,
                    true,
                    self@.sent.push(m@),
                )
                &&& forall|re: Seq<u8>|
                    re.len() == 32 && self@.sent.len() == 2 && self@.sent[1].take(32)
                        == spec_x25519_pubkey(re) ==> {
                        &&& #[trigger] spec_xn_read(Seq::<u8>::empty(), re, false, self@.sent, m@)
                            is Some
                        &&& spec_xn_remote_static(Seq::<u8>::empty(), re, false, self@.sent.push(m@))
                            == Some(spec_x25519_pubkey(self@.static_key))
                        &&& spec_xn_split(Seq::<u8>::empty(), re, false, self@.sent.push(m@))
                            == c.key@
                    }
            },
    {
        let empty: Vec<u8> = Vec::new();
        match xn_client_final(self, empty.as_slice()) {
            Ok((h, m)) => Some((m, xn_client_cipher(h))),
            Err(_) => None,
        }
    }
}

impl RelayServerReplied {
    /// Reads the client's last message: `None` where the read fails, as for any message
    /// shorter than 64 bytes; otherwise the client's static public key as the handshake has
    /// it, and the cipher of the frames that the relay will send it, at nonce 0.
    pub fn read_final(self, msg: &[u8]) -> (r: Option<(Pubkey, RelayCipher)>)
        ensures
            msg@.len() < 64 ==> r is None,
            r is Some <==> spec_xn_read(self@.static_key, self@.ephemeral, false, self@.sent, msg@)
                is Some,
            r matches Some((k, c)) ==> {
                &&& Some(k@) == spec_xn_remote_static(
                    self@.static_key,
                    self@.ephemeral,
                    false,
                    self@.sent.push(msg@),
                )
                &&& c.key@ == spec_xn_split(
                    self@.static_key,
                    self@.ephemeral,
                    false,
                    self@.sent.push(msg@),
                )
                &&& c.nonce == 0
            },
    {
        match xn_server_read_final(self, msg) {
            Ok((h, _)) => {
                let (rs, c) = xn_server_finish(h);
                match rs {
                    Some(k) => Some((k, c)),
                    None => None,
                }
            },
            Err(_) => None,
        }
    }
}

} // verus!
