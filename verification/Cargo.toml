[package]
name = "typst_docs_convert"
version = "0.1.0"
edition = "2021"
publish = false

[dependencies]
heck = "0.5"
markdown = "1"
regex = "1"
serde = { version = "1", features = ["derive"] }
serde_yaml = "0.9"
syn = { version = "2", features = ["full", "visit", "parsing", "extra-traits"] }
proc-macro2 = { version = "1", features = ["span-locations"] }
typstyle-core = "*"
walkdir = "2"
