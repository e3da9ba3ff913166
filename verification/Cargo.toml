[package]
name = "tool_router"
version = "0.1.0"
edition = "2021"
publish = false

[dependencies]
anyhow = "1"
etcetera = "*"
once_cell = "1"
tokio = { version = "1", features = ["macros", "rt-multi-thread", "time"] }
