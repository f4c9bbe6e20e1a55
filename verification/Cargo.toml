[package]
name = "tools"
version = "0.1.0"
edition = "2021"
publish = false

[dependencies]
strsim = "0.11"
unicode-normalization = "0.1"
htmd = "*"
base64 = "0.22"
sha2 = "0.10"
hex = "0.4"
mime = "0.3"
mime_guess = "2"
serde = { version = "1", features = ["derive"] }
serde_json = "1"
schemars = "*"
tokio = { version = "1", features = ["full"] }
uuid = { version = "1", features = ["v4"] }
chrono = "0.4"
async-trait = "0.1"
thiserror = "*"
anyhow = "1"
tracing = "0.1"
bytes = "1"
ignore = "0.4"
globset = "0.4"
grep-regex = "0.1"
grep-searcher = "0.1"
dirs = "*"
dashmap = "*"
backon = "*"
libc = "0.2"
reqwest = { version = "*", default-features = false }
dom_smoothie = "*"

[dev-dependencies]
tempfile = "3"
