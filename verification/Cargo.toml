[package]
name = "fetch_spp"
version = "0.1.0"
edition = "2021"
publish = false

[dependencies]
sha2 = "0.10"
hex = "0.4"
idna = "1"
psl = "2"
serde = { version = "1", features = ["derive"] }
serde_json = "1"
tokio = { version = "1", features = ["full"] }
axum = "0.7"
axum-extra = { version = "0.9", features = ["cookie"] }
reqwest = { version = "0.12", default-features = false }
tantivy = "*"
jieba-rs = "*"
redb = "*"
hickory-resolver = "0.24"
sea-orm = { version = "1", default-features = false }
chrono = "0.4"
uuid = "1"
time = "0.3"
dotenvy = "0.15"
fon-parser = "*"
ffm-parser = "*"
