[package]
name = "newsflash_core"
version = "0.1.0"
edition = "2021"
publish = false

[dependencies]
serde_json = "=1.0.154"
url = "=2.5.8"
cairo-rs = "=0.18.5"
failure = "=0.1.8"
feedly_api = { version = "=0.7.0", default-features = false }
futures = { version = "=0.3.34", features = ["thread-pool"] }
gdk = "=0.18.2"
gdk-pixbuf = "=0.18.5"
gio = "=0.18.4"
glib = "=0.18.5"
gtk = "=0.18.2"
libhandy = "=0.11.1"
log = "=0.4.34"
log4rs = { version = "=1.4.0", default-features = false, features = ["console_appender", "pattern_encoder"] }
parking_lot = "=0.12.5"
reqwest = { version = "=0.13.5", default-features = false }
rust-embed = "=8.13.0"
serde = { version = "=1.0.229", features = ["derive"] }
tokio = { version = "=1.54.1", features = ["rt", "rt-multi-thread"] }
