[package]
name = "typf"
version = "0.1.0"
edition = "2021"
publish = false

[dependencies]
tiny-skia = "=0.12.0"
skrifa = "=0.49.0"
read-fonts = "=0.46.0"
kurbo = "=0.13.1"
serde = { version = "=1.0.229", features = ["derive"] }
serde_json = "=1.0.154"
log = "=0.4.35"
thiserror = "=2.0.21"
png = "=0.18.1"
flate2 = "=1.1.10"
resvg = { version = "0.45", default-features = false }
