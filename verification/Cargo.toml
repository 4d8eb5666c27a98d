[package]
name = "online_plotter"
version = "0.1.1"
edition = "2021"
publish = false

[dependencies]
exmex = { version = "=0.9.4", features = ["serde"] }
itertools = "=0.10.5"
itertools-num = "=0.1.3"
log = "=0.4.34"
plotters = "=0.3.7"
plotters-canvas = "=0.3.1"
ron = "=0.6.6"
serde = { version = "=1.0.229", features = ["derive"] }
splines = { version = "=4.4.2", features = ["serde"] }
thiserror = "=1.0.69"
wasm-logger = "=0.2.0"
web-sys = { version = "=0.3.106", features = ["HtmlCanvasElement"] }
yew = "=0.18.0"
