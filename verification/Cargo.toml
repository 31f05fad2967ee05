[package]
name = "ptyproc"
version = "0.1.0"
edition = "2021"
publish = false

[dependencies]
nix = { version = "*", features = ["term", "process", "signal", "fs"] }
