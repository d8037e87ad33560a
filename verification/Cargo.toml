[package]
name = "export_logseq_notes"
version = "0.1.0"
edition = "2021"
publish = false

[dependencies]
urlocator = "0.1"
urlencoding = "2"
chrono = "0.4"
regex = "1"
smallvec = "1"
edn-rs = "0.17"
handlebars = "4"
katex = "0.4"
syntect = "5"
serde = { version = "1", features = ["derive"] }
serde_json = "1"
rhai = { version = "1", features = ["sync"] }
rusqlite = { version = "0.29", features = ["bundled"] }
rusqlite_migration = "1.0"
r2d2 = "0.8"
r2d2_sqlite = "0.22"
reqwest = { version = "0.11", default-features = false, features = ["blocking", "json", "rustls-tls"] }
blake3 = "1"
rayon = "1"
eyre = "0.6"
color-eyre = "0.6"
dirs = "5"
dotenv = "0.15"
structopt = "0.3"
toml = "0.7"
tempfile = "3"
zip = { version = "0.6", default-features = false, features = ["deflate"] }
itertools = "0.10"
anyhow = "1"
