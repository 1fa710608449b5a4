[package]
name = "dirk"
version = "0.1.0"
edition = "2021"
publish = false

[dependencies]
convert_case = "*"
itertools = "*"
once_cell = "1"
proc-macro2 = "1"
quote = "1"
syn = { version = "2", features = ["full", "extra-traits"] }
proc-macro-error = "1"
