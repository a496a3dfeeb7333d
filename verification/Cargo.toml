[package]
name = "wherever"
version = "0.1.0"
edition = "2021"
publish = false

[dependencies]
noise-protocol = "0.1"
noise-rust-crypto = "0.5"
byteorder = "1"
base64 = "0.13"
rand = { version = "0.8", features = ["small_rng"] }
futures = "0.3"
futures-core = "0.3"
futures-sink = "0.3"
futures-util = "0.3"
tokio = { version = "1", features = ["full"] }
warp = "0.3"
tokio-tungstenite = "0.21"
tungstenite = "0.21"
getopts = "0.2"
qr2term = "0.3"
open = "5"
qrcode = { version = "0.14", default-features = false, features = ["svg"] }
wasm-bindgen = "0.2"
wasm-bindgen-futures = "0.4"
js-sys = "0.3"
web-sys = { version = "0.3", features = ["Window", "Document", "Element", "Storage", "Location", "WebSocket", "BinaryType", "MessageEvent"] }
jni = "0.19"
reqwest = { version = "0.11", default-features = false, features = ["blocking"] }
