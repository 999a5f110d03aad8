[package]
name = "k9_console"
version = "0.1.0"
edition = "2021"
publish = false

[dependencies]
bnf = "=0.6.0"
log = "=0.4.34"
time = { version = "0.3", features = ["local-offset"] }
