[package]
name = "xbst"
version = "0.1.0"
edition = "2021"
publish = false

[dependencies]
clap = { version = "4", features = ["derive"] }
deunicode = "1"
thiserror = "2"
zerocopy = "0.8"
