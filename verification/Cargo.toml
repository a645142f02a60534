[package]
name = "sand_simulation"
version = "0.1.0"
edition = "2021"
publish = false

[dependencies]
rand = "0.8"
yew = { version = "0.21", features = ["csr"] }
gloo = "0.10"
gloo-console = "0.3"
wasm-bindgen = "0.2"
web-sys = { version = "0.3", features = ["HtmlInputElement"] }
