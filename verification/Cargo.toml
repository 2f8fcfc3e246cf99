[package]
name = "game_case"
version = "0.1.0"
edition = "2021"
publish = false

[dependencies]
md-5 = "*"
sha1 = "*"
sha2 = "*"
cursive = "*"
confy = "*"
serde = { version = "*", features = ["derive"] }
shellexpand = "*"
thiserror = "*"

[dev-dependencies]
crc32fast = "*"
