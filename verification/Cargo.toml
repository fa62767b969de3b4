[package]
name = "sar_core"
version = "0.1.0"
edition = "2021"
publish = false

[dependencies]
ages-prs = "*"
anyhow = "1"
blowfish = "0.9"
clap = { version = "4", features = ["derive"] }
image = { version = "0.25", default-features = false, features = ["png"] }
imageproc = { version = "0.25", default-features = false }
rayon = "1"
thiserror = "2"
tokio = { version = "1", features = ["fs", "macros", "rt-multi-thread"] }
tokio-stream = { version = "0.1", features = ["fs"] }
