[package]
name = "rill"
version = "0.1.8"
edition = "2021"
publish = false

[dependencies]
async-channel = "2"
chrono = "=0.4.45"
dirs = "=7.0.0"
dirs-next = "2"
env_logger = "0.11"
gettext-rs = { version = "0.7", features = ["gettext-system"] }
glib = "=0.22.10"
gtk4 = "=0.11.5"
ksni = { version = "=0.3.7", features = ["blocking"] }
libadwaita = "=0.9.2"
libc = "0.2"
log = "0.4"
mtorrent = "=0.8.0"
rusqlite = { version = "=0.41.1", features = ["bundled"] }
serde = { version = "1", features = ["derive"] }
sha1 = "=0.10.7"
tokio = { version = "1", features = ["rt", "rt-multi-thread", "sync", "time"] }
urlencoding = "=2.1.3"
