[package]
name = "ironvein"
version = "0.1.0"
edition = "2021"
publish = false

[dependencies]
bincode = "1.3"
axum = { version = "0.7", default-features = false, features = ["http1", "tokio", "ws"] }
tokio = { version = "1", features = ["macros", "net", "rt-multi-thread", "sync"] }
futures = "0.3"
dotenvy = "0.15"
sqlx = { version = "0.7", default-features = false, features = ["postgres", "runtime-tokio"] }
tracing = "0.1"
tracing-subscriber = { version = "0.3", default-features = false, features = ["fmt"] }
bevy = { version = "0.12", default-features = false }
gloo-net = { version = "0.6", default-features = false, features = ["websocket"] }
wasm-bindgen = "0.2"
web-sys = { version = "0.3", features = ["CanvasRenderingContext2d", "CssStyleDeclaration", "Document", "Element", "Event", "HtmlCanvasElement", "HtmlElement", "MessageEvent", "MouseEvent", "Node", "WebSocket", "Window"] }
console_error_panic_hook = "0.1"

[dev-dependencies]
serde = "1"
