[package]
name = "clog"
version = "0.1.0"
edition = "2021"
publish = false

[dependencies]
async-trait = "*"
bytes = "*"
chrono = "*"
clap = { version = "*", features = ["derive"] }
clap_complete = "*"
dirs = "*"
miette = "*"
object_store = { version = "*", features = ["azure"] }
sea-orm = { version = "*", default-features = false, features = ["sqlx-sqlite", "runtime-tokio-rustls", "macros", "with-chrono"] }
sea-orm-migration = { version = "*", features = ["sqlx-sqlite", "runtime-tokio-rustls"] }
serde = { version = "*", features = ["derive"] }
serde_json = "*"
serde_yaml = "*"
tabled = "*"
tokio = { version = "*", features = ["macros", "rt-multi-thread", "fs"] }
toml = "*"
