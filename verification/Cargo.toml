[package]
name = "shed"
version = "0.1.0"
edition = "2021"
publish = false

[dependencies]
smallvec = "1"
unicode-segmentation = "1"
unicode-width = "0.2"
nix = { version = "0.29", features = ["signal", "term", "poll", "user", "hostname", "fs", "process", "ioctl"] }
rusqlite = { version = "*", features = ["bundled"] }
vte = "*"
rand = "*"
