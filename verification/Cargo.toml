[package]
name = "log_atlas"
version = "0.1.0"
edition = "2021"
publish = false

[dependencies]
anyhow = "1"
breakpad-symbols = "*"
eframe = { version = "0.27", default-features = false, features = ["default_fonts", "glow"] }
futures = "0.3"
minidump = "*"
minidump-processor = "*"
rfd = "0.14"
time = "0.3"
