[package]
name = "procscope"
version = "0.1.0"
edition = "2021"
publish = false

[dependencies]
bytemuck = "1"
anyhow = "1"
clap = { version = "4", features = ["derive"] }
tokio = { version = "1", features = ["macros", "rt", "rt-multi-thread", "time"] }
aya = "0.13"
crossterm = "0.28"
ratatui = "0.29"
