[package]
name = "fontc"
version = "0.1.0"
edition = "2021"
publish = false

[dependencies]
chrono = { version = "=0.4.45", features = ["serde"] }
clap = { version = "=4.6.7", features = ["derive"] }
indexmap = "=2.14.2"
kurbo = "=0.13.1"
log = "=0.4.35"
ordered-float = { version = "=5.5.1", features = ["serde"] }
serde = { version = "=1.0.229", features = ["derive"] }
serde_yaml = "=0.9.34"
smol_str = { version = "=0.3.7", features = ["serde"] }
thiserror = "=2.0.21"
unicode-normalization = "=0.1.26"
write-fonts = { version = "=0.55.0", features = ["read"] }
