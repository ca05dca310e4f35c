[package]
name = "eab"
version = "0.1.0"
edition = "2021"
publish = false

[dependencies]
minicbor = { version = "*", features = ["alloc", "std"] }
sha2 = "*"
hex = "*"
blake3 = "*"
uuid = { version = "*", features = ["v4"] }
chrono = "*"
serde = { version = "*", features = ["derive"] }
serde_json = "*"
thiserror = "*"
anyhow = "*"
once_cell = "*"
clap = { version = "*", features = ["derive"] }
fs2 = "*"
libc = "*"
ureq = { version = "2", features = ["json"] }
actix-web = "4"
tokio = { version = "1", features = ["rt", "time", "macros"] }
quinn = "*"
rustls = "*"
rcgen = "*"
sled = "*"
bincode = "1"
