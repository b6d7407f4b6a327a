[package]
name = "readingtime"
version = "0.1.0"
edition = "2021"
publish = false

[dependencies]
dom_smoothie = "=0.18.2"
url = "=2.5.8"
thiserror = "*"
teloxide = "=0.17.0"
tokio = { version = "*", features = ["macros", "rt-multi-thread"] }
reqwest = "*"
dptree = "*"
log = "*"
pretty_env_logger = "*"
takecell = "=0.1.1"
