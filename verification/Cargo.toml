[package]
name = "sudoku"
version = "0.1.0"
edition = "2021"
publish = false

[dependencies]
rand = "*"
yew = { version = "*", features = ["csr"] }
web-sys = { version = "*", features = ["Window", "HtmlInputElement", "EventTarget"] }
wasm-bindgen = "*"
