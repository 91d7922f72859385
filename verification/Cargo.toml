[package]
name = "logix_text"
version = "0.1.0"
edition = "2021"
publish = false

[dependencies]
anyhow = "1"
atty = "0.2"
chrono = "0.4"
clap = { version = "3", features = ["derive"] }
fern = { version = "0.6", features = ["colored"] }
log = "0.4"
strum = { version = "0.24", features = ["derive"] }
