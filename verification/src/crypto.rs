use vstd::prelude::*;
use noise_protocol::U8Array;
use noise_protocol::DH;
use noise_protocol::HandshakeState;
use noise_protocol::patterns::noise_x;
use noise_rust_crypto::{Blake2b, ChaCha20Poly1305, X25519};
use noise_protocol::ErrorKind as NoiseErrorKind;
use vstd::string::StrSliceExecFns;
use crate::codec::{
    base64_decode, law_be_bytes_digits, law_be_roundtrip, law_be_value_digits, read_u64_be, spec_base64_decode, spec_be_bytes, spec_be_value,
    write_u64_be,
};

verus! {

/// A X25519 private key.
pub type Key = [u8; 32];

/// A X25519 public key.
pub type Pubkey = [u8; 32];

/// Why a Noise handshake message could not be written or read.
#[derive(Debug, Clone, Copy, PartialEq, Eq, Structural)]
pub enum ErrorKind {
    DH,
    NeedPSK,
    Decryption,
    TooShort,
}

/// Bytes of Noise overhead in the single message of the `X` pattern: the ephemeral key,
/// the encrypted static key with its tag, and the payload tag.
pub const NOISE_X_OVERHEAD: usize = 96;

/// The public key that X25519 derives from a private key.
pub uninterp spec fn spec_x25519_pubkey(key: Seq<u8>) -> Seq<u8>;

/// What a Noise `X` responder holding static key `key`, started with `prologue`, reads from
/// the handshake message `data`: the initiator's static key and the payload.
pub uninterp spec fn spec_noise_x_read(key: Seq<u8>, prologue: Seq<u8>, data: Seq<u8>) -> Result<
    (Seq<u8>, Seq<u8>),
    ErrorKind,
>;

/// `<X25519 as DH>::pubkey`: the claim is that the result is the name of the public key of
/// `key`.
#[verifier::external_body]
pub(crate) fn x25519_pubkey(key: &Key) -> (pk: Pubkey)
    ensures
        pk@ == spec_x25519_pubkey(key@),
{
    X25519::pubkey(&U8Array::from_slice(key))
}

/// A successful read of `key` and `payload`.
pub open spec fn read_ok(key: Seq<u8>, payload: Seq<u8>) -> Result<(Seq<u8>, Seq<u8>), ErrorKind> {
    Ok((key, payload))
}

/// The plain values of a read result.
pub open spec fn read_view(r: Result<(Pubkey, Vec<u8>), ErrorKind>) -> Result<
    (Seq<u8>, Seq<u8>),
    ErrorKind,
> {
    match r {
        Ok((a, b)) => Ok((a@, b@)),
        Err(e) => Err(e),
    }
}

/// Builds a `Noise_X_25519_ChaChaPoly_BLAKE2b` initiator (`HandshakeState::new` with static
/// key `client_key`, responder key and prologue `server_key`) and writes its single message
/// around `payload` (`HandshakeState::write_message_vec`). The ephemeral key is random, so
/// the bytes are not named. The claims: the write succeeds, since the message of `X`
/// (`E, ES, S, SS`) holds no PSK token and `<X25519 as DH>::dh` always returns `Ok`, which
/// leaves `write_message` no error to return; a written message is the payload plus the fixed
/// overhead of the pattern, as `write_message_vec` allocates it; and a responder whose
/// 32-byte private key has `server_key` as public key, started with that public key as
/// prologue, reads from it the initiator's public key and the payload (what the `X`
/// handshake is for: X25519 agreement gives both sides the same keys).
#[verifier::external_body]
pub(crate) fn noise_x_write(client_key: &Key, server_key: &Pubkey, payload: &[u8]) -> (r: Result<
    Vec<u8>,
    ErrorKind,
>)
    ensures
        r is Ok,
        r matches Ok(c) ==> c@.len() == payload@.len() + NOISE_X_OVERHEAD,
        r matches Ok(c) ==> forall|sk: Seq<u8>|
            sk.len() == 32 && #[trigger] spec_x25519_pubkey(sk) == server_key@ ==> spec_noise_x_read(
                sk,
                server_key@,
                c@,
            ) == read_ok(spec_x25519_pubkey(client_key@), payload@),
{
    let mut hs = HandshakeState::<X25519, ChaCha20Poly1305, Blake2b>::new(noise_x(), true,
        &server_key[..], Some(U8Array::from_slice(client_key)), None, Some(*server_key), None);
    hs.write_message_vec(payload).map_err(|e| match e.kind() {
        NoiseErrorKind::DH => ErrorKind::DH,
        NoiseErrorKind::NeedPSK => ErrorKind::NeedPSK,
        NoiseErrorKind::Decryption => ErrorKind::Decryption,
        NoiseErrorKind::TooShort => ErrorKind::TooShort,
    })
}

/// Builds a `Noise_X_25519_ChaChaPoly_BLAKE2b` responder with static key `server_key` and
/// the given prologue (`HandshakeState::new`), reads the single message `data`
/// (`HandshakeState::read_message_vec`) and takes the initiator's static key (`get_rs`,
/// which a successful read has set). The claims: the result is the name applied to the
/// arguments; a message shorter than the overhead is `TooShort`; a payload is the message
/// less the overhead.
#[verifier::external_body]
pub(crate) fn noise_x_read(server_key: &Key, prologue: &Pubkey, data: &[u8]) -> (r: Result<
    (Pubkey, Vec<u8>),
    ErrorKind,
>)
    ensures
        read_view(r) == spec_noise_x_read(server_key@, prologue@, data@),
        data@.len() < NOISE_X_OVERHEAD ==> r matches Err(ErrorKind::TooShort),
        r matches Ok((_, p)) ==> p@.len() + NOISE_X_OVERHEAD == data@.len(),
{
    let mut hs = HandshakeState::<X25519, ChaCha20Poly1305, Blake2b>::new(noise_x(), false,
        &prologue[..], Some(U8Array::from_slice(server_key)), None, None, None);
    match hs.read_message_vec(data) {
        Ok(p) => Ok((hs.get_rs().unwrap(), p)),
        Err(e) => Err(match e.kind() {
            NoiseErrorKind::DH => ErrorKind::DH,
            NoiseErrorKind::NeedPSK => ErrorKind::NeedPSK,
            NoiseErrorKind::Decryption => ErrorKind::Decryption,
            NoiseErrorKind::TooShort => ErrorKind::TooShort,
        }),
    }
}


/// The first 32 bytes of `s` as a key.
pub fn key_from_slice(s: &[u8]) -> (k: [u8; 32])
    requires
        s@.len() >= 32,
    ensures
        k@ == s@.take(32),
{
    let mut k: [u8; 32] = [0u8; 32];
    for i in 0..32usize
        invariant
            s@.len() >= 32,
            forall|j: int| 0 <= j < i ==> k@[j] == s@[j],
    {
        k[i] = s[i];
    }
    proof {
        assert(k@ =~= s@.take(32));
    }
    k
}

/// The stored form of a private key, as base64 text: `None` where the text does not decode,
/// the key where it decodes to 32 bytes, and otherwise the number of bytes it decodes to.
pub fn key_from_base64(text: &str) -> (r: Option<Result<Key, usize>>)
    ensures
        match spec_base64_decode(text@) {
            None => r is None,
            Some(d) => if d.len() == 32 {
                r matches Some(Ok(k)) && k@ == d
            } else {
                r matches Some(Err(n)) && n == d.len()
            },
        },
{
    match base64_decode(text) {
        None => None,
        Some(v) => {
            if v.len() == 32 {
                let k = key_from_slice(v.as_slice());
                proof {
                    assert(v@.take(32) == v@);
                }
                Some(Ok(k))
            } else {
                Some(Err(v.len()))
            }
        },
    }
}

/// A server's public key given as base64 text: the first 32 bytes of what it decodes to;
/// `None` where it does not decode or decodes to fewer bytes.
pub fn server_key_from_base64(text: &str) -> (k: Option<Pubkey>)
    ensures
        match spec_base64_decode(text@) {
            Some(d) => if d.len() >= 32 {
                k matches Some(x) && x@ == d.take(32)
            } else {
                k is None
            },
            None => k is None,
        },
{
    match base64_decode(text) {
        None => None,
        Some(v) => {
            if v.len() >= 32 {
                Some(key_from_slice(v.as_slice()))
            } else {
                None
            }
        },
    }
}

/// The plaintext that a client encrypts: the sequence number in network order, then the
/// UTF-8 bytes of the message.
pub open spec fn spec_client_payload(msg: Seq<char>, seq_num: u64) -> Seq<u8> {
    spec_be_bytes(seq_num) + vstd::utf8::encode_utf8(msg)
}

pub fn client_payload(msg: &str, seq_num: u64) -> (p: Vec<u8>)
    ensures
        p@ == spec_client_payload(msg@, seq_num),
{
    let mut p: Vec<u8> = Vec::new();
    write_u64_be(&mut p, seq_num);
    let mut bytes = msg.as_bytes_vec();
    p.append(&mut bytes);
    p
}

/// The wire form of a client message: the server's public key, which tells a relay where to
/// forward it, then the Noise handshake message.
pub fn frame_client_message(server_key: &Pubkey, handshake_message: Vec<u8>) -> (m: Vec<u8>)
    ensures
        m@ == server_key@ + handshake_message@,
{
    let mut m: Vec<u8> = Vec::new();
    for i in 0..32usize
        invariant
            m@ == server_key@.take(i as int),
    {
        m.push(server_key[i]);
        proof {
            assert(server_key@.take(i + 1) == server_key@.take(i as int).push(server_key@[i as int]));
        }
    }
    let mut h = handshake_message;
    m.append(&mut h);
    proof {
        assert(server_key@.take(32) == server_key@);
    }
    m
}

/// The relay's destination of a framed message: its first 32 bytes, when more follow.
pub open spec fn spec_get_destination(msg: Seq<u8>) -> Option<Seq<u8>> {
    if msg.len() > 32 {
        Some(msg.take(32))
    } else {
        None
    }
}

/// Encrypts `msg` with sequence number `seq_num` from the client key to the server's public
/// key, in a one-message Noise `X` handshake, and frames it for the relay. The handshake uses
/// a fresh random ephemeral key, so the ciphertext is not determined. It always succeeds:
/// the message is as long as the payload plus the overhead and the key; the relay routes it to
/// `server_key`; and the server holding the private key of `server_key` decrypts it to the
/// client's public key, the sequence number and the text.
pub fn encrypt_client_message(msg: &str, client_key: Key, server_key: Pubkey, seq_num: u64) -> (r:
    Result<Vec<u8>, ErrorKind>)
    ensures
        r is Ok,
        r matches Ok(m) ==> forall|sk: Seq<u8>|
            sk.len() == 32 && #[trigger] spec_x25519_pubkey(sk) == server_key@ ==> spec_noise_x_read(
                sk,
                server_key@,
                m@.skip(32),
            ) == Ok::<(Seq<u8>, Seq<u8>), ErrorKind>(
                (spec_x25519_pubkey(client_key@), spec_be_bytes(seq_num) + vstd::utf8::encode_utf8(
                    msg@,
                )),
            ),
        r matches Ok(m) ==> m@.len() == 32 + spec_client_payload(msg@, seq_num).len()
            + NOISE_X_OVERHEAD,
        r matches Ok(m) ==> spec_get_destination(m@) == Some(server_key@),
        r matches Ok(m) ==> forall|sk: Seq<u8>|
            sk.len() == 32 && #[trigger] spec_x25519_pubkey(sk) == server_key@ ==> {
                &&& client_payload_fits(m@, sk)
                &&& spec_decrypt_client_message(m@, sk) == Ok::<
                    (Seq<u8>, u64, Seq<u8>),
                    ErrorKind,
                >((spec_x25519_pubkey(client_key@), seq_num, vstd::utf8::encode_utf8(msg@)))
            },
{
    let payload = client_payload(msg, seq_num);
    match noise_x_write(&client_key, &server_key, payload.as_slice()) {
        Ok(c) => {
            let m = frame_client_message(&server_key, c);
            proof {
                assert(m@.take(32) == server_key@);
                assert(m@.skip(32) == c@);
                let p = payload@;
                law_be_roundtrip(seq_num);
                assert(spec_be_value(p) == spec_be_value(spec_be_bytes(seq_num)));
                assert(p.skip(8) == vstd::utf8::encode_utf8(msg@));
            }
            Ok(m)
        },
        Err(e) => Err(e),
    }
}

/// What the server learns from a framed client message: the client's static key, the
/// sequence number and the message bytes; or why it could not be read.
pub open spec fn spec_decrypt_client_message(msg: Seq<u8>, server_key: Seq<u8>) -> Result<
    (Seq<u8>, u64, Seq<u8>),
    ErrorKind,
> {
    if msg.len() < 32 {
        Err(ErrorKind::TooShort)
    } else {
        match spec_noise_x_read(server_key, spec_x25519_pubkey(server_key), msg.skip(32)) {
            Ok((rs, p)) => Ok((rs, spec_be_value(p), p.skip(8))),
            Err(e) => Err(e),
        }
    }
}

/// The server reads a client message as the client framed it: when the Noise payload is the
/// eight big-endian bytes of `n` followed by `text`, decryption gives the sender's key, `n`
/// and `text`.
pub proof fn law_decrypt_number_then_text(
    msg: Seq<u8>,
    server_key: Seq<u8>,
    rs: Seq<u8>,
    n: u64,
    text: Seq<u8>,
)
    requires
        msg.len() >= 32,
        spec_noise_x_read(server_key, spec_x25519_pubkey(server_key), msg.skip(32)) == Ok::<
            (Seq<u8>, Seq<u8>),
            ErrorKind,
        >((rs, spec_be_bytes(n) + text)),
    ensures
        spec_decrypt_client_message(msg, server_key) == Ok::<(Seq<u8>, u64, Seq<u8>), ErrorKind>(
            (rs, n, text),
        ),
{
    let b = spec_be_bytes(n);
    let p = b + text;
    law_be_roundtrip(n);
    assert(p.skip(8) == text);
    assert forall|i: int| 0 <= i < 8 implies p[i] == b[i] by {}
    assert(spec_be_value(p) == spec_be_value(b));
}

/// The sequence number of a decrypted message is the base-256 value of the first eight bytes
/// of the Noise payload, most significant first, and the message bytes are all that follow.
pub proof fn law_decrypt_fields(msg: Seq<u8>, server_key: Seq<u8>, rs: Seq<u8>, p: Seq<u8>)
    requires
        msg.len() >= 32,
        p.len() >= 8,
        spec_noise_x_read(server_key, spec_x25519_pubkey(server_key), msg.skip(32)) == Ok::<
            (Seq<u8>, Seq<u8>),
            ErrorKind,
        >((rs, p)),
    ensures
        spec_decrypt_client_message(msg, server_key) matches Ok((k, n, data)) && k == rs && n as int
            == p[0] as int * 0x100000000000000 + p[1] as int * 0x1000000000000 + p[2] as int
            * 0x10000000000 + p[3] as int * 0x100000000 + p[4] as int * 0x1000000 + p[5] as int
            * 0x10000 + p[6] as int * 0x100 + p[7] as int && data == p.subrange(8, p.len() as int),
{
    law_be_value_digits(p);
    assert(p.skip(8) == p.subrange(8, p.len() as int));
}

/// A framed message shorter than the 32-byte destination key is `TooShort`; otherwise a
/// Noise read that fails gives its error.
pub proof fn law_decrypt_errors(msg: Seq<u8>, server_key: Seq<u8>)
    ensures
        msg.len() < 32 ==> spec_decrypt_client_message(msg, server_key) == Err::<
            (Seq<u8>, u64, Seq<u8>),
            ErrorKind,
        >(ErrorKind::TooShort),
        msg.len() >= 32 ==> (spec_noise_x_read(
            server_key,
            spec_x25519_pubkey(server_key),
            msg.skip(32),
        ) matches Err(e) ==> spec_decrypt_client_message(msg, server_key) == Err::<
            (Seq<u8>, u64, Seq<u8>),
            ErrorKind,
        >(e)),
{
}

/// A decrypted payload holds at least the eight bytes of the sequence number; reading the
/// number from a shorter one is not defined, so the readers below require this or test it.
pub open spec fn client_payload_fits(msg: Seq<u8>, server_key: Seq<u8>) -> bool {
    msg.len() >= 32 ==> (spec_noise_x_read(
        server_key,
        spec_x25519_pubkey(server_key),
        msg.skip(32),
    ) matches Ok((_, p)) ==> p.len() >= 8)
}

/// Splits a decrypted payload into its sequence number and message bytes.
pub fn split_client_payload(payload: Vec<u8>) -> (r: (u64, Vec<u8>))
    requires
        payload@.len() >= 8,
    ensures
        r.0 == spec_be_value(payload@),
        r.1@ == payload@.skip(8),
{
    let mut payload = payload;
    let seq = read_u64_be(payload.as_slice());
    let rest = payload.split_off(8);
    (seq, rest)
}

/// Reads a framed client message with the server's private key.
pub fn decrypt_client_message(msg: &[u8], server_key: Key) -> (r: Result<
    (Pubkey, u64, Vec<u8>),
    ErrorKind,
>)
    requires
        client_payload_fits(msg@, server_key@),
    ensures
        match spec_decrypt_client_message(msg@, server_key@) {
            Ok((k, s, d)) => r matches Ok((k2, s2, d2)) && k2@ == k && s2 == s && d2@ == d,
            Err(e) => r matches Err(e2) && e2 == e,
        },
{
    if msg.len() < 32 {
        return Err(ErrorKind::TooShort);
    }
    let rest = vstd::slice::slice_subrange(msg, 32, msg.len());
    let pubkey = x25519_pubkey(&server_key);
    match noise_x_read(&server_key, &pubkey, rest) {
        Ok((client_key, payload)) => {
            let (seq, data) = split_client_payload(payload);
            Ok((client_key, seq, data))
        },
        Err(e) => Err(e),
    }
}

/// `decrypt_client_message` for any input: `None` where the decrypted payload is too short
/// to hold a sequence number.
pub fn checked_decrypt_client_message(msg: &[u8], server_key: Key) -> (r: Option<
    Result<(Pubkey, u64, Vec<u8>), ErrorKind>,
>)
    ensures
        r is None <==> !client_payload_fits(msg@, server_key@),
        r matches Some(res) ==> match spec_decrypt_client_message(msg@, server_key@) {
            Ok((k, s, d)) => res matches Ok((k2, s2, d2)) && k2@ == k && s2 == s && d2@ == d,
            Err(e) => res matches Err(e2) && e2 == e,
        },
{
    if msg.len() < 32 {
        return Some(Err(ErrorKind::TooShort));
    }
    let rest = vstd::slice::slice_subrange(msg, 32, msg.len());
    let pubkey = x25519_pubkey(&server_key);
    match noise_x_read(&server_key, &pubkey, rest) {
        Ok((client_key, payload)) => {
            if payload.len() >= 8 {
                let (seq, data) = split_client_payload(payload);
                Some(Ok((client_key, seq, data)))
            } else {
                None
            }
        },
        Err(e) => Some(Err(e)),
    }
}

/// The relay's destination of a framed message: its first 32 bytes, when more follow.
pub fn get_destination(msg: &[u8]) -> (r: Option<Pubkey>)
    ensures
        r is Some <==> msg@.len() > 32,
        r matches Some(k) ==> Some(k@) == spec_get_destination(msg@),
{
    if msg.len() > 32 {
        Some(key_from_slice(msg))
    } else {
        None
    }
}

} // verus!
