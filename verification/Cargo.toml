[package]
name = "webgateway"
version = "0.1.0"
edition = "2021"
publish = false

[dependencies]
anyhow = "*"
byteorder = "*"
flate2 = "*"
fluvio-wasm-timer = "*"
futures = "*"
rdp-rs = "*"
serde_json = "*"
tokio = { version = "*", features = ["sync", "io-util"] }
tracing = "*"
tracing-wasm = "*"
vnc-rs = "*"
wasm-bindgen = "*"
wasm-bindgen-futures = "*"
web-sys = { version = "*", features = ["MouseEvent", "KeyboardEvent", "HtmlCanvasElement"] }
ws_stream_wasm = "*"
yew = "*"
