[package]
name = "afanasieff_rs"
version = "0.1.0"
edition = "2021"
publish = false

[dependencies]
anyhow = "=1.0.104"
chrono = "=0.4.45"
log = "=0.4.35"
pretty_env_logger = "=0.5.0"
rand = "=0.9.5"
rusqlite = { version = "=0.41.1", features = ["bundled"] }
# Not named in the code: holds the takecell that teloxide-core depends on
# below 0.1.2.
takecell = "<0.1.2"
teloxide = { version = "=0.17.0", default-features = false, features = ["macros", "rustls", "ctrlc_handler"] }
tokio = { version = "=1.54.1", features = ["rt-multi-thread", "macros", "signal", "time", "sync"] }
tokio-util = "=0.7.20"
