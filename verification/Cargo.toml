[package]
name = "snake_game"
version = "0.1.0"
edition = "2021"
publish = false

[dependencies]
rand = "*"
js-sys = "*"
wasm-bindgen = "*"
web-sys = { version = "*", features = ["Window", "Document", "Element", "HtmlElement", "HtmlDivElement", "KeyboardEvent", "console", "CssStyleDeclaration", "Node", "EventTarget"] }
