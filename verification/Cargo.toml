[package]
name = "bpa_analysis"
version = "0.1.0"
edition = "2021"
publish = false

[dependencies]
serde_json = { version = "=1.0.154", features = ["preserve_order"] }
serde = { version = "=1.0.229", features = ["derive"] }
humantime = "=2.4.0"
uuid = { version = "=1.29.0", features = ["v4"] }
chrono = "=0.4.45"
base64 = "=0.22.1"
docx-rs = "=0.4.22"
calamine = "=0.38.0"
zip = { version = "=8.6.0", default-features = false, features = ["deflate"] }
image = "=0.25.10"
pdf2image = "=0.1.3"
indexmap = "=2.14.2"
log = "=0.4.35"
tokio = { version = "=1.54.1", features = ["rt-multi-thread"] }
openai_dive = "=0.7.5"
reqwest = "=0.12.28"
config = "=0.15.27"
