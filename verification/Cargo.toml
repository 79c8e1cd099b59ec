[package]
name = "ccweb"
version = "0.1.0"
edition = "2021"
publish = false

[dependencies]
arrayvec = "=0.5.2"
serde = { version = "=1.0.229", features = ["derive"] }
serde_json = "=1.0.154"
wasm-bindgen = "=0.2.130"
wasm-bindgen-futures = "=0.4.80"
js-sys = "=0.3.107"
console_error_panic_hook = "=0.1.7"
web-sys = { version = "=0.3.107", features = ["Window", "Document", "Element", "HtmlElement", "HtmlCanvasElement", "HtmlImageElement", "CanvasRenderingContext2d", "CssStyleDeclaration", "Node", "Event", "EventTarget", "Storage", "Performance", "Response", "AudioContext", "AudioBuffer", "AudioBufferSourceNode", "AudioDestinationNode", "AudioNode", "BaseAudioContext", "KeyboardEvent"] }
