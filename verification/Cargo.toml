[package]
name = "nzb-postproc"
version = "0.1.0"
edition = "2021"
publish = false

[dependencies]
anyhow = "=1.0.104"
nzb-core = "=0.2.19"
opentelemetry = "=0.33.1"
rust-par2 = "=0.2.0"
tar = "=0.4.46"
tokio = { version = "=1.54.1", features = ["fs", "io-util", "macros", "process", "rt", "rt-multi-thread", "sync", "time"] }
tracing = "=0.1.44"
walkdir = "=2.5.0"
zip = "=8.6.0"

[dev-dependencies]
crc32fast = "=1.5.4"
md-5 = "=0.10.6"
tempfile = "=3.27.0"
