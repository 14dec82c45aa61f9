[package]
name = "waldo_core"
version = "0.1.0"
edition = "2021"
publish = false

[dependencies]
serde = { version = "=1.0.229", features = ["derive"] }
serde_json = "=1.0.154"
axum = { version = "0.8", features = ["ws"] }
tokio = { version = "1", features = ["rt-multi-thread", "macros", "net", "sync", "time"] }
tower-http = { version = "0.6", features = ["fs", "set-header"] }
leptos = { version = "0.7", features = ["csr"] }
three-d = "0.19"
three-d-asset = { version = "0.10", features = ["gltf", "http", "png", "jpeg"] }
wasm-bindgen = "0.2"
wasm-bindgen-futures = "0.4"
js-sys = "0.3"
send_wrapper = "0.6"
console_error_panic_hook = "0.1"
web-sys = { version = "0.3", features = ["Window", "Location", "Storage", "console", "WebSocket", "MessageEvent", "Headers", "Request", "RequestInit", "Response", "RtcConfiguration", "RtcDataChannel", "RtcDataChannelEvent", "RtcDataChannelState", "RtcIceGatheringState", "RtcPeerConnection", "RtcPeerConnectionIceEvent", "RtcIceCandidate", "RtcSdpType", "RtcSessionDescription", "RtcSessionDescriptionInit"] }
