use vstd::prelude::*;
use byteorder::ByteOrder;
use byteorder::WriteBytesExt;

verus! {

// ---------------------------------------------------------------------------
// Big-endian (network order) u64
// ---------------------------------------------------------------------------

/// The eight bytes of `n`, most significant first.
pub open spec fn spec_be_bytes(n: u64) -> Seq<u8> {
    seq![
        (n >> 56u64) as u8,
        (n >> 48u64) as u8,
        (n >> 40u64) as u8,
        (n >> 32u64) as u8,
        (n >> 24u64) as u8,
        (n >> 16u64) as u8,
        (n >> 8u64) as u8,
        n as u8,
    ]
}

/// The number whose big-endian encoding is the first eight bytes of `b`.
pub open spec fn spec_be_value(b: Seq<u8>) -> u64
    recommends
        b.len() >= 8,
{
    ((b[0] as u64) << 56u64) | ((b[1] as u64) << 48u64) | ((b[2] as u64) << 40u64) | ((
    b[3] as u64) << 32u64) | ((b[4] as u64) << 24u64) | ((b[5] as u64) << 16u64) | ((
    b[6] as u64) << 8u64) | (b[7] as u64)
}

/// Appends the big-endian bytes of `n` (byteorder's `WriteBytesExt::write_u64` with
/// `NetworkEndian`, which on a `Vec` appends the eight bytes and cannot fail).
#[verifier::external_body]
pub(crate) fn write_u64_be(buf: &mut Vec<u8>, n: u64)
    ensures
        final(buf)@ == old(buf)@ + spec_be_bytes(n),
{
    buf.write_u64::<byteorder::NetworkEndian>(n).unwrap()
}

/// Reads a big-endian u64 from the first eight bytes of `buf` (byteorder's
/// `NetworkEndian::read_u64`, which panics on fewer than eight bytes).
#[verifier::external_body]
pub(crate) fn read_u64_be(buf: &[u8]) -> (n: u64)
    requires
        buf@.len() >= 8,
    ensures
        n == spec_be_value(buf@),
{
    byteorder::NetworkEndian::read_u64(buf)
}

/// The big-endian bytes of `n` are its base-256 digits, most significant first.
pub proof fn law_be_bytes_digits(n: u64)
    ensures
        spec_be_bytes(n).len() == 8,
        n as int == spec_be_bytes(n)[0] as int * 0x100000000000000 + spec_be_bytes(n)[1] as int
            * 0x1000000000000 + spec_be_bytes(n)[2] as int * 0x10000000000 + spec_be_bytes(n)[3] as int
            * 0x100000000 + spec_be_bytes(n)[4] as int * 0x1000000 + spec_be_bytes(n)[5] as int
            * 0x10000 + spec_be_bytes(n)[6] as int * 0x100 + spec_be_bytes(n)[7] as int,
{
    let b0 = (n >> 56u64) as u8;
    let b1 = (n >> 48u64) as u8;
    let b2 = (n >> 40u64) as u8;
    let b3 = (n >> 32u64) as u8;
    let b4 = (n >> 24u64) as u8;
    let b5 = (n >> 16u64) as u8;
    let b6 = (n >> 8u64) as u8;
    let b7 = n as u8;
    assert(n == (b0 as u64) * 0x100000000000000u64 + (b1 as u64) * 0x1000000000000u64 + (b2 as u64)
        * 0x10000000000u64 + (b3 as u64) * 0x100000000u64 + (b4 as u64) * 0x1000000u64 + (b5 as u64)
        * 0x10000u64 + (b6 as u64) * 0x100u64 + (b7 as u64)) by (bit_vector)
        requires
            b0 == (n >> 56u64) as u8,
            b1 == (n >> 48u64) as u8,
            b2 == (n >> 40u64) as u8,
            b3 == (n >> 32u64) as u8,
            b4 == (n >> 24u64) as u8,
            b5 == (n >> 16u64) as u8,
            b6 == (n >> 8u64) as u8,
            b7 == n as u8,
    ;
}

/// The number read from the first eight bytes of `b` is their base-256 value, most
/// significant byte first.
pub proof fn law_be_value_digits(b: Seq<u8>)
    requires
        b.len() >= 8,
    ensures
        spec_be_value(b) as int == b[0] as int * 0x100000000000000 + b[1] as int * 0x1000000000000
            + b[2] as int * 0x10000000000 + b[3] as int * 0x100000000 + b[4] as int * 0x1000000
            + b[5] as int * 0x10000 + b[6] as int * 0x100 + b[7] as int,
{
    let (b0, b1, b2, b3, b4, b5, b6, b7) = (b[0], b[1], b[2], b[3], b[4], b[5], b[6], b[7]);
    assert(((b0 as u64) << 56u64) | ((b1 as u64) << 48u64) | ((b2 as u64) << 40u64) | ((
    b3 as u64) << 32u64) | ((b4 as u64) << 24u64) | ((b5 as u64) << 16u64) | ((b6 as u64)
        << 8u64) | (b7 as u64) == (b0 as u64) * 0x100000000000000u64 + (b1 as u64)
        * 0x1000000000000u64 + (b2 as u64) * 0x10000000000u64 + (b3 as u64) * 0x100000000u64
        + (b4 as u64) * 0x1000000u64 + (b5 as u64) * 0x10000u64 + (b6 as u64) * 0x100u64
        + (b7 as u64)) by (bit_vector);
}

/// Reading back the big-endian bytes of a number gives the number.
pub proof fn law_be_roundtrip(n: u64)
    ensures
        spec_be_value(spec_be_bytes(n)) == n,
{
    let b = spec_be_bytes(n);
    assert(((((n >> 56u64) as u8) as u64) << 56u64) | ((((n >> 48u64) as u8) as u64) << 48u64)
        | ((((n >> 40u64) as u8) as u64) << 40u64) | ((((n >> 32u64) as u8) as u64) << 32u64)
        | ((((n >> 24u64) as u8) as u64) << 24u64) | ((((n >> 16u64) as u8) as u64) << 16u64)
        | ((((n >> 8u64) as u8) as u64) << 8u64) | ((n as u8) as u64) == n) by (bit_vector);
}

// ---------------------------------------------------------------------------
// Base64 (standard alphabet, padded)
// ---------------------------------------------------------------------------

/// The character of the standard base64 alphabet for a 6-bit value.
pub open spec fn base64_digit(v: int) -> char {
    if v < 26 {
        (('A' as int) + v) as char
    } else if v < 52 {
        (('a' as int) + v - 26) as char
    } else if v < 62 {
        (('0' as int) + v - 52) as char
    } else if v == 62 {
        '+'
    } else {
        '/'
    }
}

/// The standard base64 encoding of `data` (RFC 4648, padded): each group of three bytes
/// becomes four characters of six bits each; a last group of one or two bytes is padded
/// with `=` to four characters.
pub open spec fn spec_base64_encode(data: Seq<u8>) -> Seq<char>
    decreases data.len(),
{
    if data.len() == 0 {
        Seq::empty()
    } else if data.len() == 1 {
        let a = data[0] as int;
        seq![base64_digit(a / 4), base64_digit((a % 4) * 16), '=', '=']
    } else if data.len() == 2 {
        let a = data[0] as int;
        let b = data[1] as int;
        seq![base64_digit(a / 4), base64_digit((a % 4) * 16 + b / 16), base64_digit((b % 16) * 4), '=']
    } else {
        let a = data[0] as int;
        let b = data[1] as int;
        let c = data[2] as int;
        seq![
            base64_digit(a / 4),
            base64_digit((a % 4) * 16 + b / 16),
            base64_digit((b % 16) * 4 + c / 64),
            base64_digit(c % 64),
        ] + spec_base64_encode(data.skip(3))
    }
}

/// The bytes that the `base64` crate decodes from `text`, `None` where it reports an error.
pub uninterp spec fn spec_base64_decode(text: Seq<char>) -> Option<Seq<u8>>;

/// The characters of the standard base64 alphabet, with the padding `=`.
pub open spec fn is_base64_char(c: char) -> bool {
    ('A' <= c <= 'Z') || ('a' <= c <= 'z') || ('0' <= c <= '9') || c == '+' || c == '/' || c
        == '='
}

proof fn lemma_base64_digit(v: int)
    requires
        0 <= v < 64,
    ensures
        is_base64_char(base64_digit(v)),
{
}

/// The standard encoding holds only characters of the alphabet and `=`.
pub proof fn law_base64_alphabet(data: Seq<u8>)
    ensures
        forall|i: int|
            0 <= i < spec_base64_encode(data).len() ==> is_base64_char(
                #[trigger] spec_base64_encode(data)[i],
            ),
    decreases data.len(),
{
    let e = spec_base64_encode(data);
    if data.len() == 0 {
    } else if data.len() <= 2 {
        let a = data[0] as int;
        lemma_base64_digit(a / 4);
        if data.len() == 1 {
            lemma_base64_digit((a % 4) * 16);
        } else {
            let b = data[1] as int;
            lemma_base64_digit((a % 4) * 16 + b / 16);
            lemma_base64_digit((b % 16) * 4);
        }
    } else {
        let a = data[0] as int;
        let b = data[1] as int;
        let c = data[2] as int;
        lemma_base64_digit(a / 4);
        lemma_base64_digit((a % 4) * 16 + b / 16);
        lemma_base64_digit((b % 16) * 4 + c / 64);
        lemma_base64_digit(c % 64);
        law_base64_alphabet(data.skip(3));
        let head = seq![
            base64_digit(a / 4),
            base64_digit((a % 4) * 16 + b / 16),
            base64_digit((b % 16) * 4 + c / 64),
            base64_digit(c % 64),
        ];
        let tail = spec_base64_encode(data.skip(3));
        assert(e == head + tail);
        assert forall|i: int| 0 <= i < e.len() implies is_base64_char(#[trigger] e[i]) by {
            if i >= 4 {
                assert(e[i] == tail[i - 4]);
            }
        }
    }
}

/// `base64::encode`: the claims are that the text is the standard padded encoding of
/// `data`, and that the crate's `decode` reads it back to `data`.
#[verifier::external_body]
pub(crate) fn base64_encode(data: &[u8]) -> (text: String)
    ensures
        text@ == spec_base64_encode(data@),
        spec_base64_decode(text@) == Some(data@),
{
    base64::encode(data)
}

/// `base64::decode`, with its error mapped to `None`: the claim is that the result is the
/// decoding of `text`.
#[verifier::external_body]
pub(crate) fn base64_decode(text: &str) -> (data: Option<Vec<u8>>)
    ensures
        match spec_base64_decode(text@) {
            Some(d) => data matches Some(v) && v@ == d,
            None => data is None,
        },
{
    base64::decode(text).ok()
}

// ---------------------------------------------------------------------------
// Decimal u64
// ---------------------------------------------------------------------------

pub open spec fn is_digit(c: char) -> bool {
    '0' <= c <= '9'
}

pub open spec fn digit_char(d: nat) -> char
    recommends
        d < 10,
{
    (d + ('0' as nat)) as char
}

/// The value of a string of decimal digits.
pub open spec fn digits_value(s: Seq<char>) -> nat
    decreases s.len(),
{
    if s.len() == 0 {
        0
    } else {
        digits_value(s.drop_last()) * 10 + ((s.last() as nat) - ('0' as nat)) as nat
    }
}

/// What `str::parse::<u64>` accepts: an optional `+`, then one or more decimal digits whose
/// value fits in a u64.
pub open spec fn spec_parse_u64(s: Seq<char>) -> Option<u64> {
    let d = if s.len() > 0 && s[0] == '+' {
        s.skip(1)
    } else {
        s
    };
    if d.len() > 0 && (forall|i: int| 0 <= i < d.len() ==> is_digit(#[trigger] d[i]))
        && digits_value(d) <= u64::MAX {
        Some(digits_value(d) as u64)
    } else {
        None
    }
}

/// The decimal digits of `n`, without leading zeros, as `Display` writes them.
pub open spec fn spec_decimal(n: nat) -> Seq<char>
    decreases n,
{
    if n < 10 {
        seq![digit_char(n)]
    } else {
        spec_decimal(n / 10).push(digit_char(n % 10))
    }
}

/// std's `str::parse::<u64>`, with its error mapped to `None`.
#[verifier::external_body]
pub(crate) fn parse_u64(s: &str) -> (r: Option<u64>)
    ensures
        r == spec_parse_u64(s@),
{
    s.parse::<u64>().ok()
}

/// std's `ToString` for `u64`: the decimal digits of `n`.
#[verifier::external_body]
pub(crate) fn u64_to_decimal(n: u64) -> (s: String)
    ensures
        s@ == spec_decimal(n as nat),
{
    n.to_string()
}

proof fn lemma_decimal_digits(n: nat)
    ensures
        spec_decimal(n).len() > 0,
        spec_decimal(n)[0] != '+',
        forall|i: int| 0 <= i < spec_decimal(n).len() ==> is_digit(#[trigger] spec_decimal(n)[i]),
        digits_value(spec_decimal(n)) == n,
    decreases n,
{
    let c = digit_char(n % 10);
    assert((c as nat) == (n % 10) + ('0' as nat));
    if n < 10 {
        assert(spec_decimal(n).drop_last() == Seq::<char>::empty());
        assert(spec_decimal(n).last() == c);
        assert(digits_value(spec_decimal(n)) == digits_value(Seq::<char>::empty()) * 10 + ((c as nat)
            - ('0' as nat)) as nat);
    } else {
        lemma_decimal_digits(n / 10);
        let s = spec_decimal(n);
        let p = spec_decimal(n / 10);
        assert(s.drop_last() == p);
        assert forall|i: int| 0 <= i < s.len() implies is_digit(#[trigger] s[i]) by {
            if i < p.len() {
                assert(s[i] == p[i]);
            }
        }
        assert(n == (n / 10) * 10 + n % 10) by (nonlinear_arith);
        assert(s.last() == c);
        assert(digits_value(s) == digits_value(p) * 10 + ((c as nat) - ('0' as nat)) as nat);
        assert(digits_value(s) == (n / 10) * 10 + n % 10);
    }
}

/// The decimal text of a number parses back to the number.
pub proof fn law_decimal_roundtrip(n: u64)
    ensures
        spec_parse_u64(spec_decimal(n as nat)) == Some(n),
        forall|i: int|
            0 <= i < spec_decimal(n as nat).len() ==> is_digit(#[trigger] spec_decimal(n as nat)[i]),
{
    lemma_decimal_digits(n as nat);
}

// ---------------------------------------------------------------------------
// UTF-8
// ---------------------------------------------------------------------------

/// std's `String::from_utf8`, with its error mapped to `None`: the documentation states that
/// it fails exactly on bytes that are not valid UTF-8.
#[verifier::external_body]
pub(crate) fn string_from_utf8(bytes: Vec<u8>) -> (s: Option<String>)
    ensures
        s is Some <==> vstd::utf8::valid_utf8(bytes@),
        s matches Some(t) ==> t@ == vstd::utf8::decode_utf8(bytes@),
{
    String::from_utf8(bytes).ok()
}

} // verus!
