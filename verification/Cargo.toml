[package]
name = "super_tictactoe"
version = "0.1.0"
edition = "2021"
publish = false

[dependencies]
gloo-events = "*"
gloo-timers = "*"
js-sys = "*"
wasm-bindgen = "*"
web-sys = { version = "*", features = ["Document", "DomTokenList", "Element", "Event", "EventTarget", "HtmlCollection", "HtmlElement", "HtmlInputElement", "Node"] }
