[package]
name = "rcr"
version = "0.1.0"
edition = "2021"
publish = false

[dependencies]
sha2 = "0.10"
hex = "0.4"
anyhow = "1"
clap = { version = "4", features = ["derive"] }
serde = { version = "1", features = ["derive"] }
serde_json = "1"
nix = { version = "0.30", features = ["sched", "mount", "signal", "process", "fs", "hostname", "user"] }
caps = "0.5"
libseccomp = "*"
