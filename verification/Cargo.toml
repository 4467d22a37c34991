[package]
name = "meow"
version = "0.1.0"
edition = "2021"
publish = false

[dependencies]
subtle = "=2.6.1"
ipnet = "=2.12.2"
base64 = "=0.22.1"
rand = "=0.9.5"
regex = "=1.13.1"
lru = "=0.12.5"
parking_lot = "=0.12.5"
serde = { version = "=1.0.229", features = ["derive"] }
serde_json = "=1.0.154"
serde_yaml = "=0.9.34"
thiserror = "=2.0.21"
tokio = { version = "=1.54.1", features = ["io-util", "net", "time", "rt", "macros", "sync"] }
time = { version = "=0.3.55", features = ["formatting"] }
tracing = "=0.1.44"
tracing-subscriber = "=0.3.23"
libc = "=0.2.191"
socket2 = { version = "=0.5.10", features = ["all"] }
rustls = { version = "=0.23.46", default-features = false, features = ["ring", "std", "tls12"] }
webpki-roots = "=0.26.11"
quinn = { version = "=0.11.12", default-features = false, features = ["rustls-ring", "runtime-tokio"] }
reqwest = { version = "0.12", default-features = false, features = ["rustls-tls"] }
