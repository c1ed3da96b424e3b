[package]
name = "rampipe"
version = "0.1.0"
edition = "2021"
publish = false

[dependencies]
anyhow = "1"
encoding_rs = "0.8"
llama-cpp-2 = "*"
llama-cpp-sys-2 = "*"
memmap2 = "0.9"
minijinja = { version = "2", features = ["json"] }
minijinja-contrib = { version = "2", features = ["pycompat"] }
serde = { version = "1", features = ["derive"] }
serde_json = "1"
thiserror = "2"
toml = "*"

[dev-dependencies]
tempfile = "3"
