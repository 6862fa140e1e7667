[package]
name = "termifind"
version = "0.1.0"
edition = "2021"
publish = false

[dependencies]
console = "=0.16.6"
serde = "=1.0.229"
serde_derive = "=1.0.229"
serde_json = "=1.0.151"
term_size = "=0.3.2"
