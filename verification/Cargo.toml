[package]
name = "slint-mapping"
version = "0.1.0"
edition = "2021"
publish = false

[dependencies]
image = { version = "*", default-features = false, features = ["png"] }
slint = { version = "1", default-features = false, features = ["std", "compat-1-2"] }
ureq = "2"
serde = { version = "1", features = ["derive"] }
serde_json = "1"
lru = "*"
send_wrapper = "*"
wasm-bindgen = "0.2"
js-sys = "0.3"
web-sys = { version = "0.3", features = ["XmlHttpRequest", "XmlHttpRequestResponseType"] }
jni = "0.21"
