[package]
name = "fim"
version = "0.1.0"
edition = "2021"
publish = false

[dependencies]
sha2 = "0.10"
diffy = "0.4"
inotify = "0.11"
notify-rust = "4"
chrono = "0.4"
serde = { version = "1", features = ["derive"] }
serde_json = "1"
