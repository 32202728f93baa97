[package]
name = "tipiak"
version = "0.1.0"
edition = "2021"
publish = false

[dependencies]
zstd = "*"
regex = "*"
stop-words = "*"
quick-xml = "*"
dyn-fmt = "*"
clap = { version = "*", features = ["derive"] }
rusqlite = { version = "*", features = ["bundled"] }
walkdir = "*"
notify = "*"
kamadak-exif = "*"
id3 = "*"
iptc = "*"
toml = "*"
serde = { version = "*", features = ["derive"] }
log = "*"
simple_logger = "*"
