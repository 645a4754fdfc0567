[package]
name = "srt_repeats"
version = "0.1.0"
edition = "2021"
publish = false

[dependencies]
clap = { version = "4", features = ["derive"] }
clap_complete_command = "*"
clap-stdin = "*"
srtlib = "*"
