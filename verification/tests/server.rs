use noise_protocol::DH;
use noise_rust_crypto::X25519;
use wherever::server::{
    connect_qr_code, connect_url, encoded_pubkey, plan_launch, prompt_answer, str_eq, web_asset,
    LaunchPlan, PromptAnswer, WebAsset, WEB_CONNECT_HOST,
};

#[test]
fn assets_by_path() {
    assert_eq!(web_asset("/"), Some(WebAsset::Html));
    assert_eq!(web_asset("/index.html"), Some(WebAsset::Html));
    assert_eq!(web_asset("/wherever_web.js"), Some(WebAsset::Js));
    assert_eq!(web_asset("/wherever_web_bg.wasm"), Some(WebAsset::Wasm));
    assert_eq!(web_asset("/other"), None);
    assert_eq!(WebAsset::Html.content_type(), "text/html; charset=UTF-8");
    assert_eq!(WebAsset::Js.content_type(), "text/javascript; charset=UTF-8");
    assert_eq!(WebAsset::Wasm.content_type(), "application/wasm");
}

#[test]
fn launch_plans() {
    assert_eq!(
        plan_launch(true, true, true),
        LaunchPlan { relay_server: true, relay_client: false, standalone: false }
    );
    assert_eq!(
        plan_launch(false, false, false),
        LaunchPlan { relay_server: false, relay_client: false, standalone: true }
    );
    assert_eq!(
        plan_launch(false, false, true),
        LaunchPlan { relay_server: false, relay_client: true, standalone: false }
    );
    assert_eq!(
        plan_launch(false, true, true),
        LaunchPlan { relay_server: false, relay_client: true, standalone: true }
    );
}

#[test]
fn urls() {
    assert_eq!(connect_url("host:1", "KEY"), "where://host:1/#KEY");
    let k = X25519::genkey();
    let mut key = [0u8; 32];
    key.copy_from_slice(&*k);
    assert_eq!(encoded_pubkey(&key), base64::encode(X25519::pubkey(&k)));
    let svg = connect_qr_code(WEB_CONNECT_HOST, &X25519::pubkey(&k)).unwrap();
    assert!(svg.contains("<svg"));
}

#[test]
fn answers() {
    assert_eq!(prompt_answer("Y\n"), PromptAnswer::Accept);
    assert_eq!(prompt_answer("No\n"), PromptAnswer::Reject);
    assert_eq!(prompt_answer("y\n"), PromptAnswer::AskAgain);
    assert_eq!(prompt_answer(""), PromptAnswer::AskAgain);
}

#[test]
fn string_equality() {
    assert!(str_eq("abc", "abc"));
    assert!(!str_eq("abc", "abd"));
    assert!(!str_eq("ab", "abc"));
}

#[test]
fn stream_urls() {
    assert_eq!(wherever::server::relay_stream_url("http:", "h:1"), "ws://h:1/stream");
    assert_eq!(wherever::server::relay_stream_url("https:", "h"), "wss://h/stream");
}
