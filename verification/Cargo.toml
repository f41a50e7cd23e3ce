[package]
name = "find_dups"
version = "0.1.0"
edition = "2021"
publish = false

[dependencies]
clap = { version = "4", features = ["derive"] }
env_logger = "*"
glob = "*"
kurbo = "*"
log = "*"
skrifa = "*"
thiserror = "*"
write-fonts = "*"
