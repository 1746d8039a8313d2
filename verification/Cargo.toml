[package]
name = "find_server"
version = "0.1.0"
edition = "2021"
publish = false

[dependencies]
serde = { version = "=1.0.229", features = ["derive"] }
serde_json = "=1.0.154"
toml = "=1.1.8"
tiff = "=0.11.3"
image = { version = "=0.25.10", default-features = false, features = ["tiff", "png"] }
nucleo-matcher = "=0.3.1"
form_urlencoded = "=1.2.2"
zip = { version = "=9.2.2", default-features = false, features = ["deflate"] }
chrono = { version = "=0.4.45", default-features = false, features = ["clock"] }
flate2 = "=1.1.10"
regex = "=1.13.1"
mime_guess = "=2.0.5"
rusqlite = { version = "=0.41.1", features = ["functions", "bundled"] }
