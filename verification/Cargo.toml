[package]
name = "sfhtml"
version = "0.1.0"
edition = "2021"
publish = false

[dependencies]
anyhow = "=1.0.104"
base64 = "=0.22.1"
clap = { version = "=4.6.7", features = ["derive"] }
crossbeam-channel = "=0.5.17"
html5ever = "=0.27.0"
markup5ever_rcdom = "=0.3.0"
memchr = "=2.8.3"
notify = "=6.1.1"
num_cpus = "=1.17.0"
oxc_allocator = "=0.143.0"
oxc_ast = "=0.143.0"
oxc_parser = "=0.143.0"
oxc_span = "=0.143.0"
serde = { version = "=1.0.229", features = ["derive"] }
serde_json = "=1.0.154"
sha2 = "=0.10.9"
similar = "=2.7.0"
tempfile = "=3.27.0"
tungstenite = "=0.24.0"
walkdir = "=2.5.0"
