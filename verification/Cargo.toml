[package]
name = "daidori_manager"
version = "0.1.0"
edition = "2021"
publish = false

[dependencies]
base64 = "0.22"
chrono = "0.4"
dirs = "5"
image = { version = "0.25", default-features = false, features = ["jpeg", "png", "tiff"] }
md5 = "0.7"
natord = "1.0"
psd = "0.3"
serde = { version = "1", features = ["derive"] }
serde_json = "1"
tokio = { version = "1", features = ["rt"] }
