[package]
name = "a2l_editor"
version = "0.1.0"
edition = "2021"
publish = false

[dependencies]
gimli = "*"
object = "*"
sha2 = "0.10"
memmap2 = "0.9"
anyhow = "1"
chrono = "0.4"
dirs = "*"
rusqlite = "*"
serde = { version = "1", features = ["derive"] }
serde_json = "1"
bincode = "1"
