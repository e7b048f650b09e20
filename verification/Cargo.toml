[package]
name = "sciproj"
version = "0.1.0"
edition = "2021"
publish = false

[dependencies]
anyhow = "*"
bytes = "*"
clap = { version = "*", features = ["derive"] }
csv = "*"
fs-mistrust = "*"
futures = "*"
hashbrown = "*"
im = "*"
itertools = "*"
log = "*"
schemars = "*"
serde = { version = "*", features = ["derive"] }
serde_json = "*"
serde_norway = "*"
slab = "*"
thiserror = "*"
tokio = { version = "*", features = ["full"] }
toml = "*"
tracing = "*"
tracing-subscriber = "*"
walkdir = "*"
