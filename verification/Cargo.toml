[package]
name = "uncloud_web"
version = "0.1.0"
edition = "2021"
publish = false

[dependencies]
chrono = "=0.4.45"
urlencoding = "=2.1.3"
serde_json = "=1.0.154"
keepass = { version = "=0.16.1", features = ["save_kdbx4"] }
uuid = "=1.29.0"
js-sys = "=0.3.107"
wasm-bindgen = "=0.2.130"
web-sys = { version = "=0.3.107", features = ["Window", "Crypto", "Location", "Document", "Element", "Event", "EventTarget", "Navigator"] }
