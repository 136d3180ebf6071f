[package]
name = "randd_tasks"
version = "0.1.0"
edition = "2021"
publish = false

[dependencies]
rand = { version = "*", features = ["small_rng"] }
slug = "*"
time = { version = "*", features = ["local-offset", "serde-human-readable", "macros", "formatting", "parsing"] }
serde = { version = "*", features = ["derive"] }
serde_yml = "*"
serde_norway = "*"
clap = { version = "*", features = ["derive"] }
clap_complete = { version = "*", features = ["unstable-dynamic"] }
csv = "*"
dirs = "*"
cli-table = "*"
notify-rust = "*"
