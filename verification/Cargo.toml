[package]
name = "optics_bench"
version = "0.1.0"
edition = "2021"
publish = false

[dependencies]
transpose = "=0.2.3"
rustfft = "=6.4.1"
rayon = "=1.12.0"
serde = { version = "=1.0.229", features = ["derive"] }
serde_json = "=1.0.154"
glam = { version = "=0.34.2", features = ["serde", "bytemuck"] }
bytemuck = { version = "=1.25.2", features = ["derive"] }
png = "=0.18.1"
env_logger = { version = "=0.11.11", default-features = false }
eframe = { version = "=0.36.2", default-features = false, features = ["wgpu", "default_fonts", "persistence", "x11"] }
wasm-bindgen = "*"
wasm-bindgen-futures = "*"
js-sys = "*"
web-sys = { version = "*", features = ["Window", "Document", "Storage", "Blob", "BlobPropertyBag", "Url", "Element", "HtmlElement", "HtmlAnchorElement", "HtmlInputElement", "CssStyleDeclaration", "Node", "File", "FileList"] }
