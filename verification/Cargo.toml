[package]
name = "foton"
version = "0.1.0"
edition = "2021"
publish = false

[dependencies]
semver = "1"
glob = "0.3"
toml = "*"
url = "2"
spdx = "*"
sha2 = "0.10"
zip = { version = "*", default-features = false, features = ["deflate"] }
tempfile = "3"
clap = { version = "4", features = ["derive"] }
dialoguer = { version = "*", default-features = false }
reqwest = { version = "0.12", default-features = false, features = ["blocking", "rustls-tls"] }
