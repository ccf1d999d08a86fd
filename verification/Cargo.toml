[package]
name = "uci_grabber"
version = "0.2.0"
edition = "2021"
publish = false

[dependencies]
base64 = "=0.23.1"
clap = { version = "=4.6.7", features = ["derive"] }
directories = "=6.0.0"
eframe = { version = "=0.37.0", default-features = false, features = ["default_fonts", "glow", "x11"] }
flate2 = "=1.1.10"
jiff = "=0.2.39"
rfd = { version = "=0.16.1", default-features = false, features = ["xdg-portal", "tokio"] }
ring = "=0.17.14"
serde = { version = "=1.0.229", features = ["derive"] }
serde_json = "=1.0.154"
sha2 = "=0.11.1"
tar = "=0.4.46"
tempfile = "=3.27.0"
thiserror = "=2.0.21"
ureq = "=3.5.1"
url = "=2.5.8"
windows-sys = { version = "=0.61.2", features = ["Win32_Foundation", "Win32_Security", "Win32_System_JobObjects", "Win32_System_Threading"] }
zip = { version = "=9.2.2", default-features = false, features = ["deflate"] }
zstd = "=0.14.3"
