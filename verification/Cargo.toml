[package]
name = "deshittify"
version = "0.1.0"
edition = "2021"
publish = false

[dependencies]
anyhow = "=1.0.104"
chrono = "=0.4.45"
itertools = "=0.10.5"
lazy_static = "=1.5.1"
log = "=0.4.34"
rusqlite = { version = "=0.40.2", features = ["bundled", "chrono"] }
takecell = "=0.1.1"
teloxide = { version = "=0.17.0", features = ["macros"] }
tokio = { version = "=1.53.2", features = ["macros", "rt-multi-thread", "time"] }
