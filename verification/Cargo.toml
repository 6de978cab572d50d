[package]
name = "dojo2"
version = "0.1.0"
edition = "2021"
publish = false

[dependencies]
minreq = { version = "2", features = ["https", "json-using-serde"] }
serde_json = "1"
url = "2"
