[package]
name = "protonctx"
version = "0.1.1"
edition = "2021"
publish = false

[dependencies]
steam-vdf-parser = "*"
serde = { version = "1", features = ["derive"] }
serde_json = "1"
cxx-qt = "*"
cxx-qt-lib = { version = "*", default-features = false }
