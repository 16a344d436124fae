[package]
name = "xilem_html"
version = "0.1.0"
edition = "2021"
publish = false

[dependencies]
xilem_core = "*"
wasm-bindgen = "0.2"
web-sys = { version = "0.3", features = ["Document", "Element", "HtmlElement", "Node", "Text", "Window"] }
