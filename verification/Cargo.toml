[package]
name = "typos"
version = "0.1.0"
edition = "2021"
publish = false

[dependencies]
simdutf8 = "=0.1.5"
unicode-xid = "=0.2.6"
unicase = "=2.10.0"
regex = "=1.13.1"
content_inspector = "=0.2.4"
encoding_rs = "=0.8.44"
clap = { version = "=4.6.7", features = ["derive"] }
ignore = "=0.4.34"
globset = "=0.4.21"
edit-distance = "=2.2.2"
phf_codegen = "=0.14.0"
phf_shared = { version = "=0.14.0", features = ["unicase"] }
serde = { version = "=1.0.229", features = ["derive"] }
toml = "=1.2.1"
csv = "=1.4.0"
difflib = "0.4"
serde_json = "1"
