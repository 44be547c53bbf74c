[package]
name = "archetype_browser"
version = "0.1.0"
edition = "2021"
publish = false

[dependencies]
url = "=2.5.8"
psl = "=2.1.246"
cookie = "=0.18.2"
cookie_store = "=0.21.1"
serde = { version = "=1.0.229", features = ["derive"] }
serde_json = { version = "=1.0.154", features = ["raw_value"] }
base64 = "=0.22.1"
cssparser = "=0.38.0"
html5ever = "=0.39.0"
markup5ever_rcdom = "=0.39.0+unofficial"
uuid = { version = "=1.29.0", features = ["v7"] }
rusqlite = { version = "=0.41.1", features = ["bundled"] }
reqwest = { version = "=0.12.28", default-features = false, features = ["blocking", "rustls-tls"] }
rustls = { version = "=0.23.46", default-features = false, features = ["ring", "std"] }
chacha20poly1305 = "=0.10.1"
getrandom = "=0.3.4"
sha2 = "=0.10.9"
thiserror = "=2.0.21"
anyhow = "=1.0.104"
sys-locale = "=0.3.2"
directories = "=6.0.0"
chrono = "=0.4.45"
image = { version = "=0.25.10", default-features = false, features = ["png", "jpeg"] }
