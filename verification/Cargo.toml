[package]
name = "snippets_loader"
version = "0.1.0"
edition = "2021"
publish = false

[dependencies]
rand = "=0.8.8"
eyre = "=0.6.14"
rosu-map = "=0.2.1"
rosu-mem = "=2.0.0"
rosu-memory-lib = "=1.3.1"
egui = { version = "=0.29.1", default-features = false }
