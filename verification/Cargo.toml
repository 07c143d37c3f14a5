[package]
name = "loki-file-access"
version = "0.1.2"
edition = "2021"
publish = false

[dependencies]
base64 = "=0.22.1"
rfd = { version = "=0.17.2", default-features = false, features = ["xdg-portal"] }
pollster = "=0.4.0"
tracing = "=0.1.44"
thiserror = "=2.0.21"
jni = "=0.21.1"
ndk-context = "=0.1.1"
wasm-bindgen = "=0.2.130"
wasm-bindgen-futures = "=0.4.80"
js-sys = "=0.3.107"
web-sys = { version = "=0.3.107", features = ["Window", "Document", "Element", "HtmlElement", "HtmlInputElement", "EventTarget", "FileList", "File", "Blob"] }

[dev-dependencies]
serde = "=1.0.229"
serde_json = "=1.0.154"
