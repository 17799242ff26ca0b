[package]
name = "elf2uf2"
version = "0.1.0"
edition = "2021"
publish = false

[dependencies]
goblin = "*"
anyhow = "*"
clap = { version = "*", features = ["derive"] }
cli-table = "*"
dunce = "*"
fs_extra = "*"
human_bytes = "*"
indicatif = "*"
serde = { version = "*", features = ["derive"] }
serde_json = "*"
sysinfo = "*"
