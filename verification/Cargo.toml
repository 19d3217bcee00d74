[package]
name = "stegano_rs"
version = "0.1.0"
edition = "2021"
publish = false

[dependencies]
anyhow = "*"
clap = "*"
png = "*"
slog = "*"
slog-term = "*"
ulid = "*"
