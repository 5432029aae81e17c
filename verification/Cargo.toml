[package]
name = "imap-safe-mail"
version = "0.1.0"
edition = "2021"
publish = false

[dependencies]
clap = { version = "4", features = ["derive"] }
imap = { version = "3.0.0-alpha.15", default-features = false, features = ["rustls-tls"] }
