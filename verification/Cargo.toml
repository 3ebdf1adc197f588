[package]
name = "hopperscript"
version = "0.1.0"
edition = "2021"
publish = false

[dependencies]
uuid = { version = "1", features = ["v4"] }
radix_fmt = "1"
serde = { version = "1", features = ["derive"] }
serde_json = "1"
ariadne = "0.3"
rhai = "1"

[dev-dependencies]
chumsky = "0.9"
nom = "7"
