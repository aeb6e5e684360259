[package]
name = "sparrow"
version = "0.1.0"
edition = "2021"
publish = false

[dependencies]
anyhow = "*"
clap = { version = "*", features = ["derive"] }
fern = "*"
itertools = "*"
jiff = "*"
log = "*"
ordered-float = "*"
rand = "*"
serde = { version = "*", features = ["derive"] }
serde_json = "*"
slotmap = "*"
svg = "*"
tap = "*"
