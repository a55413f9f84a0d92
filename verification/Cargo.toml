[package]
name = "flappy"
version = "0.2.0"
edition = "2021"
publish = false

[dependencies]
crossterm = "0.29"
wasm-bindgen = "0.2"
js-sys = "0.3"
gloo-events = "0.2"
console_error_panic_hook = "0.1"
web-sys = { version = "0.3", features = ["CanvasRenderingContext2d", "Document", "Element", "Event", "EventTarget", "HtmlCanvasElement", "KeyboardEvent", "Window"] }
