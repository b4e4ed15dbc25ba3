[package]
name = "soap_rs"
version = "0.1.0"
edition = "2021"
publish = false

[dependencies]
minidom = "*"
reqwest = { version = "*", default-features = false, features = ["blocking"] }
syn = { version = "2", features = ["full"] }
quote = "1"
proc-macro2 = "1"
