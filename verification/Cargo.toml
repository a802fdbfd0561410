[package]
name = "jj_core"
version = "0.1.0"
edition = "2021"
publish = false

[dependencies]
chrono = "0.4"
chrono-english = "0.1"
rustix = { version = "1", features = ["fs"] }
thiserror = "2"
mlua = { version = "0.10", features = ["lua54", "vendored"] }
clap = { version = "4", features = ["derive"] }
