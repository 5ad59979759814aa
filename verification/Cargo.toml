[package]
name = "confinuum"
version = "0.1.0"
edition = "2021"
publish = false

[dependencies]
anyhow = "1"
clap = { version = "4", features = ["derive"] }
clap_complete = "4"
clap_mangen = "0.2"
common-path = "1"
crossterm = "0.26"
dialoguer = "0.10"
either = "1"
email_address = "0.2"
git2 = { version = "0.17", default-features = false }
git-url-parse = "0.4"
octocrab = "0.18"
pathdiff = "0.2"
reqwest = { version = "0.11", default-features = false }
rpassword = "7"
secrecy = "0.8"
serde = { version = "1", features = ["derive"] }
spinoff = "0.7"
tokio = { version = "1", features = ["macros", "rt-multi-thread", "time"] }
toml = "0.7"
