[package]
name = "charasay"
version = "0.1.0"
edition = "2021"
publish = false

[dependencies]
rand = "=0.8.8"
strip-ansi-escapes = "=0.2.1"
textwrap = { version = "=0.16.4", features = ["terminal_size"] }
unicode-width = "=0.1.14"
clap = { version = "=4.6.7", features = ["derive"] }
clap_complete = "=4.6.11"
