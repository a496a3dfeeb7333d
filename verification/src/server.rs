use vstd::prelude::*;
use vstd::string::StringExecFns;
use vstd::string::StrSliceExecFns;
use crate::codec::{base64_encode, spec_base64_encode};
use crate::crypto::{spec_x25519_pubkey, x25519_pubkey, Key, Pubkey};
use qrcode::render::svg::Color as SvgColor;

verus! {

/// Character-wise equality of two strings.
pub fn str_eq(a: &str, b: &str) -> (r: bool)
    ensures
        r == (a@ == b@),
{
    let n = a.unicode_len();
    if n != b.unicode_len() {
        return false;
    }
    let mut i: usize = 0;
    while i < n
        invariant
            n == a@.len(),
            n == b@.len(),
            i <= n,
            forall|j: int| 0 <= j < i ==> a@[j] == b@[j],
        decreases n - i,
    {
        if a.get_char(i) != b.get_char(i) {
            return false;
        }
        i = i + 1;
    }
    proof {
        assert(a@ =~= b@);
    }
    true
}

/// The files of the browser client that the relay serves.
#[derive(Debug, Clone, Copy, PartialEq, Eq, Structural)]
pub enum WebAsset {
    Html,
    Js,
    Wasm,
}

pub open spec fn spec_web_asset(path: Seq<char>) -> Option<WebAsset> {
    if path == "/"@ || path == "/index.html"@ {
        Some(WebAsset::Html)
    } else if path == "/wherever_web.js"@ {
        Some(WebAsset::Js)
    } else if path == "/wherever_web_bg.wasm"@ {
        Some(WebAsset::Wasm)
    } else {
        None
    }
}

/// The client file served at `path`, `None` for any other path.
pub fn web_asset(path: &str) -> (r: Option<WebAsset>)
    ensures
        r == spec_web_asset(path@),
{
    if str_eq(path, "/") || str_eq(path, "/index.html") {
        Some(WebAsset::Html)
    } else if str_eq(path, "/wherever_web.js") {
        Some(WebAsset::Js)
    } else if str_eq(path, "/wherever_web_bg.wasm") {
        Some(WebAsset::Wasm)
    } else {
        None
    }
}

impl WebAsset {
    /// The `Content-Type` it is served with.
    pub fn content_type(&self) -> (t: &'static str)
        ensures
            t@ == match *self {
                WebAsset::Html => "text/html; charset=UTF-8"@,
                WebAsset::Js => "text/javascript; charset=UTF-8"@,
                WebAsset::Wasm => "application/wasm"@,
            },
    {
        match self {
            WebAsset::Html => "text/html; charset=UTF-8",
            WebAsset::Js => "text/javascript; charset=UTF-8",
            WebAsset::Wasm => "application/wasm",
        }
    }
}

/// Which services the server starts.
#[derive(Debug, Clone, Copy, PartialEq, Eq, Structural)]
pub struct LaunchPlan {
    pub relay_server: bool,
    pub relay_client: bool,
    pub standalone: bool,
}

/// The services for the command-line flags: `-r` runs the relay server alone; otherwise a
/// relay URI starts the relay client, and the standalone server runs when there is no relay
/// URI or `-s` asks for it.
pub fn plan_launch(relay_flag: bool, standalone_flag: bool, has_relay_uri: bool) -> (p: LaunchPlan)
    ensures
        relay_flag ==> (p == LaunchPlan { relay_server: true, relay_client: false, standalone: false }),
        !relay_flag ==> (p == LaunchPlan {
            relay_server: false,
            relay_client: has_relay_uri,
            standalone: !has_relay_uri || standalone_flag,
        }),
{
    if relay_flag {
        LaunchPlan { relay_server: true, relay_client: false, standalone: false }
    } else {
        LaunchPlan {
            relay_server: false,
            relay_client: has_relay_uri,
            standalone: !has_relay_uri || standalone_flag,
        }
    }
}

/// The link that clients scan: `where://host/#` and the server's public key in base64.
pub fn connect_url(host: &str, pubkey_text: &str) -> (url: String)
    ensures
        url@ == "where://"@ + host@ + "/#"@ + pubkey_text@,
{
    let mut url = String::from_str("where://");
    url.append(host);
    url.append("/#");
    url.append(pubkey_text);
    url
}

/// The base64 text of the public key of a server key.
pub fn encoded_pubkey(key: &Key) -> (t: String)
    ensures
        t@ == spec_base64_encode(spec_x25519_pubkey(key@)),
{
    let pk = x25519_pubkey(key);
    base64_encode(pk.as_slice())
}

/// The SVG image of the QR code of `text`, as the `qrcode` crate renders it at least `size`
/// pixels wide and high with dark modules of colour `dark` on `light`; `None` where it cannot
/// encode the text.
pub uninterp spec fn spec_qr_svg(text: Seq<char>, size: u32, dark: Seq<char>, light: Seq<char>) -> Option<Seq<char>>;

/// `qrcode::QrCode::new` on the bytes of `text`, rendered as SVG (`render`,
/// `min_dimensions(size, size)`, `dark_color`, `light_color`, `build`); its error is mapped
/// to `None`. The claim is that the result is the name applied to the arguments.
/// `min_dimensions` adds the code's width in modules (at most 185) to `size` in `u32`
/// arithmetic, and `build` multiplies the module size by that width, so `requires` keeps
/// `size` far from overflow.
#[verifier::external_body]
fn qr_svg(text: &str, size: u32, dark: &str, light: &str) -> (svg: Option<String>)
    requires
        size <= 65536,
    ensures
        match spec_qr_svg(text@, size, dark@, light@) {
            Some(s) => svg matches Some(t) && t@ == s,
            None => svg is None,
        },
{
    let code = qrcode::QrCode::new(text).ok()?;
    Some(code.render().min_dimensions(size, size).dark_color(SvgColor(dark)).light_color(
        SvgColor(light),
    ).build())
}

/// The size of the connection QR code, in pixels.
pub const QR_SIZE: u32 = 300;

/// The colour of the QR code's dark modules.
pub open spec fn spec_qr_dark() -> Seq<char> {
    "#000000"@
}

/// The colour of the QR code's light background.
pub open spec fn spec_qr_light() -> Seq<char> {
    "#FFFFFF"@
}

/// The connection QR code of `text`: black on white, at least `QR_SIZE` pixels square.
pub open spec fn spec_connect_qr(text: Seq<char>) -> Option<Seq<char>> {
    spec_qr_svg(text, QR_SIZE, spec_qr_dark(), spec_qr_light())
}

/// The host that the browser client's QR code points to.
pub const WEB_CONNECT_HOST: &'static str = "10.9.0.3:3543";

/// The QR code, as SVG, of the link to the server at `host` whose public key is `pubkey`;
/// `None` where the link cannot be encoded.
pub fn connect_qr_code(host: &str, pubkey: &Pubkey) -> (svg: Option<String>)
    ensures
        match spec_connect_qr("where://"@ + host@ + "/#"@ + spec_base64_encode(pubkey@)) {
            Some(s) => svg matches Some(t) && t@ == s,
            None => svg is None,
        },
{
    let text = base64_encode(pubkey.as_slice());
    let url = connect_url(host, text.as_str());
    let dark = "#000000";
    let light = "#FFFFFF";
    qr_svg(url.as_str(), QR_SIZE, dark, light)
}

/// The QR code, as SVG, of the link to the server at `host` that holds the private key `key`;
/// `None` where the link cannot be encoded.
pub fn key_qr_code(host: &str, key: &Key) -> (svg: Option<String>)
    ensures
        match spec_connect_qr(
            "where://"@ + host@ + "/#"@ + spec_base64_encode(spec_x25519_pubkey(key@)),
        ) {
            Some(s) => svg matches Some(t) && t@ == s,
            None => svg is None,
        },
{
    let pubkey = x25519_pubkey(key);
    connect_qr_code(host, &pubkey)
}

/// The base64 text of a key, as it is shown to the user or stored.
pub fn encode_key(key: &Pubkey) -> (t: String)
    ensures
        t@ == spec_base64_encode(key@),
{
    base64_encode(key.as_slice())
}

/// The relay stream that the browser client connects to: plain `ws://` when the page was
/// loaded over `http:`, `wss://` otherwise.
pub fn relay_stream_url(page_protocol: &str, host: &str) -> (url: String)
    ensures
        url@ == (if page_protocol@ == "http:"@ {
            "ws://"@
        } else {
            "wss://"@
        }) + host@ + "/stream"@,
{
    let mut url = if str_eq(page_protocol, "http:") {
        String::from_str("ws://")
    } else {
        String::from_str("wss://")
    };
    url.append(host);
    url.append("/stream");
    url
}

/// The user's answer at the trust prompt, read from the first character of the input.
#[derive(Debug, Clone, Copy, PartialEq, Eq, Structural)]
pub enum PromptAnswer {
    Accept,
    Reject,
    AskAgain,
}

/// `Y` accepts, `N` rejects, anything else (or nothing) asks again.
pub fn prompt_answer(line: &str) -> (a: PromptAnswer)
    ensures
        a == (if line@.len() > 0 && line@[0] == 'Y' {
            PromptAnswer::Accept
        } else if line@.len() > 0 && line@[0] == 'N' {
            PromptAnswer::Reject
        } else {
            PromptAnswer::AskAgain
        }),
{
    if line.unicode_len() == 0 {
        PromptAnswer::AskAgain
    } else {
        let c = line.get_char(0);
        if c == 'Y' {
            PromptAnswer::Accept
        } else if c == 'N' {
            PromptAnswer::Reject
        } else {
            PromptAnswer::AskAgain
        }
    }
}

} // verus!
