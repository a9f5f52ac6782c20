[package]
name = "searchmark"
version = "0.1.0"
edition = "2021"
publish = false

[dependencies]
percent-encoding = "2"
actix-web = "4"
r2d2 = "0.8"
r2d2-jfs = "*"
jfs = "*"
dotenv = "0.15"
serde = { version = "1", features = ["derive"] }
