[package]
name = "zipx_core"
version = "0.1.0"
edition = "2021"
publish = false

[dependencies]
brotli = "*"
clap = { version = "*", features = ["derive"] }
crc32fast = "*"
hmac = "*"
lz4_flex = "*"
num_cpus = "*"
rayon = "*"
serde = { version = "*", features = ["derive"] }
serde_json = "*"
sha2 = "*"
tempfile = "*"
thiserror = "*"
tokio = { version = "*", features = ["full"] }
tracing-subscriber = { version = "*", features = ["env-filter"] }
walkdir = "*"
zip = { version = "*", default-features = false, features = ["deflate"] }
zstd = "*"
