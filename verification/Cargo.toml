[package]
name = "uploader"
version = "0.1.0"
edition = "2021"
publish = false

[dependencies]
dotenv = "0.15"
notify = "*"
tokio = { version = "1", default-features = false, features = ["rt-multi-thread"] }
reqwest = { version = "*", default-features = false, features = ["multipart", "rustls-tls"] }
