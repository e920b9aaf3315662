[package]
name = "leptos-rerun"
version = "0.1.0"
edition = "2021"
publish = false

[dependencies]
leptos = "0.8"
serde = { version = "1", features = ["derive"] }
serde-wasm-bindgen = "0.6"
wasm-bindgen = "0.2"
wasm-bindgen-futures = "0.4"
js-sys = "0.3"
web-sys = { version = "0.3", features = ["HtmlElement"] }
send_wrapper = "0.6"

[dev-dependencies]
serde_json = "1"
