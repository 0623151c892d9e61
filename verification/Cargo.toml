[package]
name = "prek"
version = "0.1.0"
edition = "2021"
publish = false

[dependencies]
anyhow = "=1.0.104"
bstr = "=1.13.1"
camino = "=1.2.6"
dunce = "=1.0.5"
fs-err = { version = "=3.3.2", features = ["tokio"] }
itertools = "=0.15.0"
libyaml = "=0.2.0"
semver = "=1.0.28"
serde = { version = "=1.0.229", features = ["derive"] }
shlex = "=1.3.0"
target-lexicon = "=0.13.5"
tempfile = "=3.27.0"
tokio = { version = "=1.54.1", features = ["fs", "process", "rt"] }
tracing = "=0.1.44"
which = "=8.0.6"
