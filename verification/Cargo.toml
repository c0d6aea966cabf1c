[package]
name = "nand_flash_viewer"
version = "0.1.0"
edition = "2021"
publish = false

[dependencies]
qoi = "0.4"
serde = { version = "1", features = ["derive"] }
serde_json = "1"
log = "0.4"
env_logger = "*"
parking_lot = "0.12"
fuser = "*"
libc = "0.2"
