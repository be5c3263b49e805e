[package]
name = "haxeget"
version = "0.1.0"
edition = "2021"
publish = false

[dependencies]
serde_json = "1"
clap = { version = "4", features = ["derive"] }
color-eyre = "0.6"
console = "0.15"
flate2 = "1"
futures = "0.3"
futures-util = "0.3"
indicatif = "0.17"
reqwest = { version = "0.12", default-features = false, features = ["rustls-tls"] }
tar = "0.4"
tokio = { version = "1", features = ["rt-multi-thread", "macros"] }
zip = { version = "0.6", default-features = false, features = ["deflate"] }
