[package]
name = "confcli"
version = "0.1.0"
edition = "2021"
publish = false

[dependencies]
anyhow = "*"
base64 = "*"
clap = { version = "*", features = ["derive"] }
clap_complete = "*"
comfy-table = "*"
dialoguer = "*"
dirs = "*"
dotenvy = "*"
futures-util = "*"
htmd = "*"
humansize = "*"
indicatif = "*"
lru = "*"
regex = "*"
reqwest = { version = "*", features = ["json", "multipart", "stream"] }
serde = { version = "*", features = ["derive"] }
serde_json = "*"
shell-words = "*"
similar = "*"
tokio = { version = "*", features = ["full"] }
tokio-util = { version = "*", features = ["io"] }
url = "*"
urlencoding = "*"
