[package]
name = "lunatic"
version = "0.1.0"
edition = "2021"
publish = false

[dependencies]
chess = "3.2.0"
arraydeque = "0.4"
arrayvec = "0.5"
vampirc-uci = { version = "*", features = ["chess"] }
indexmap = "*"
