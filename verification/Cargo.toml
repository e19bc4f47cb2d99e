[package]
name = "qbsdiff"
version = "1.4.3"
edition = "2021"
publish = false

[dependencies]
bzip2 = "*"
suffix_array = "*"
rayon = "*"
clap = { version = "*", features = ["derive"] }

[dev-dependencies]
