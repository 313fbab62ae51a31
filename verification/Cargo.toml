[package]
name = "femtovg"
version = "0.1.0"
edition = "2021"
publish = false

[dependencies]
unicode-normalization = "=0.1.26"
imgref = "=1.12.3"
rgb = "=0.8.53"
slotmap = "=1.1.1"
bytemuck = { version = "=1.25.2", features = ["derive"] }
fnv = "=1.0.7"
log = "=0.4.35"
euclid = "=0.22.14"
serde = { version = "=1.0.229", features = ["derive"] }
rustybuzz = "=0.20.1"
ttf-parser = "=0.25.1"
itertools = "=0.15.0"
harfbuzz_rs = "=2.0.1"
web-sys = { version = "=0.3.107", features = ["HtmlImageElement", "HtmlCanvasElement"] }

[dev-dependencies]
rand = "0.10"
