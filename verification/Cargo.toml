[package]
name = "diskscope"
version = "0.1.0"
edition = "2021"
publish = false

[dependencies]
sha2 = "0.10"
serde = { version = "1", features = ["derive"] }
serde_json = "1"
clap = { version = "4", features = ["derive"] }
clap_complete = "4"
anyhow = "1"
ignore = "0.4"
jwalk = "0.8"
redb = "3"
parking_lot = "0.12"
trash = "5"
opener = { version = "0.7", features = ["reveal"] }
