[package]
name = "lprs"
version = "0.1.0"
edition = "2021"
publish = false

[dependencies]
aes = "0.8"
cbc = { version = "0.1", features = ["alloc", "block-padding"] }
base32 = "0.4"
base64 = "0.22"
rand = "0.8"
sha2 = "0.10"
totp-lite = "2"
regex = "1"
passwords = "3"
clap = { version = "4", features = ["derive"] }
clap_complete = "4"
serde = { version = "1", features = ["derive"] }
serde_json = "1"
inquire = "0.7"
directories = "5"
log = "0.4"
pretty_env_logger = "0.5"
