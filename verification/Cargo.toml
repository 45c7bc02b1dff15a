[package]
name = "smallnlo"
version = "0.1.0"
edition = "2021"
publish = false

[dependencies]
bitcode = { version = "*", features = ["serde"] }
clap = { version = "4", features = ["derive"] }
clap_complete = "4"
color-eyre = "*"
flate2 = "1"
ndarray = { version = "*", features = ["serde"] }
owo-colors = "*"
rayon = "1"
serde = { version = "1", features = ["derive"] }
tabled = "*"
thiserror = "*"
tracing = "0.1"
tracing-subscriber = "0.3"
zstd = "*"
