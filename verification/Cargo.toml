[package]
name = "mish"
version = "0.1.0"
edition = "2021"
publish = false

[dependencies]
regex = "=1.13.1"
sha2 = "=0.10.9"
zstd = "=0.13.4"
libc = "=0.2.191"
nix = { version = "=0.29.0", features = ["fs", "ioctl", "poll", "process", "signal", "term", "user"] }
serde = { version = "=1.0.229", features = ["derive"] }
serde_json = { version = "=1.0.154", features = ["preserve_order"] }
toml = "=0.8.23"
tokio = { version = "=1.54.1", features = ["rt", "rt-multi-thread", "macros", "signal", "sync", "time"] }
