[package]
name = "wordle"
version = "0.1.0"
edition = "2021"
publish = false

[dependencies]
atty = "0.2"
clap = { version = "3", features = ["derive"] }
console = "0.15"
eframe = { version = "0.19", features = ["persistence"] }
egui = "0.19"
lazy_static = "1.4"
rand = "0.8"
serde = { version = "1", features = ["derive"] }
serde_json = "1"
