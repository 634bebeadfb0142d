[package]
name = "rfheadless"
version = "0.1.0"
edition = "2021"
publish = false

[dependencies]
sha2 = "*"
url = "*"
reqwest = { version = "*", default-features = false, features = ["blocking"] }
scraper = "*"
boa_engine = "*"
tokio = { version = "*", features = ["rt-multi-thread", "sync"] }
futures = "*"
serde = { version = "*", features = ["derive"] }
serde_json = "*"
clap = { version = "*", features = ["derive"] }
thiserror = "*"
png = "*"
font8x8 = "*"
