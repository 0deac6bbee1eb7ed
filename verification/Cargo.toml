[package]
name = "opp"
version = "0.1.0"
edition = "2021"
publish = false

[dependencies]
libc = "=0.2.191"
nix = { version = "=0.30.1", features = ["fs", "process", "signal", "socket", "term", "uio", "user"] }
serde = "=1.0.229"
serde_json = "=1.0.154"
time = { version = "=0.3.55", features = ["formatting"] }
