[package]
name = "writermd"
version = "0.1.0"
edition = "2021"
publish = false

[dependencies]
pulldown-cmark = "=0.13.6"
leptos = { version = "=0.8.23", features = ["csr"] }
serde = { version = "=1.0.229", features = ["derive"] }
wasm-bindgen = "=0.2.130"
web-sys = { version = "=0.3.107", features = ["Window", "Document", "Element", "HtmlElement", "HtmlTextAreaElement", "Node", "NodeList", "Selection", "Range", "DomRect", "HtmlCollection"] }
tauri-wasm = { version = "=0.2.0", features = ["serde"] }
serde-wasm-bindgen = "0.6"
