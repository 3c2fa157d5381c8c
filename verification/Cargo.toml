[package]
name = "uniq_append"
version = "0.1.0"
edition = "2021"
publish = false

[dependencies]
clap = { version = "4", features = ["derive"] }
indexmap = "2"
natord = "1"

[dev-dependencies]
testfile = "*"
