[package]
name = "msgboard"
version = "0.1.0"
edition = "2021"
publish = false

[dependencies]
sled = "*"
rand = "*"
chrono = "*"
mime_guess = "*"
sanitize-filename = "*"
actix-web = "*"
actix-files = "*"
actix-multipart = "*"
futures-util = "*"
