[package]
name = "versebase"
version = "0.1.0"
edition = "2021"
publish = false

[dependencies]
chrono = { version = "0.4", default-features = false, features = ["std"] }
regex = "1"
syn = "2"
quote = "1"
proc-macro2 = "1"
