[package]
name = "live_expectancy"
version = "0.1.0"
edition = "2021"
publish = false

[dependencies]
select = "*"
dirs = "*"
anyhow = "1"
serde = { version = "1", features = ["derive"] }
serde_json = "1"
reqwest = { version = "*", features = ["blocking"] }
