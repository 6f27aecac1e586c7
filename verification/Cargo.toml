[package]
name = "daudio"
version = "0.1.0"
edition = "2021"
publish = false

[dependencies]
cpal = "0.15"
hound = "3"
pitch-detection = "0.3"
proc-macro2 = "1"
quote = "1"
rtrb = "0.3"
syn = { version = "2", features = ["full"] }
