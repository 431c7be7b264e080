[package]
name = "dirstat_rs"
version = "0.1.0"
edition = "2021"
publish = false

[dependencies]
atty = "*"
pretty-bytes = "*"
rayon = "*"
serde = { version = "*", features = ["derive"] }
serde_json = "*"
structopt = "*"
termcolor = "*"
