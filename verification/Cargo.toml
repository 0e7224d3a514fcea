[package]
name = "termchart"
version = "0.1.0"
edition = "2021"
publish = false

[dependencies]
reqwest = { version = "=0.11.27", default-features = false, features = ["blocking", "rustls-tls"] }
termion = "=1.5.6"
tui = { version = "=0.19.0", default-features = false, features = ["termion"] }
