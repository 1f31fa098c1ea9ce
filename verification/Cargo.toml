[package]
name = "virtual_exec"
version = "0.1.0"
edition = "2021"
publish = false

[dependencies]
serde = { version = "1", features = ["derive"] }
ratatui = "*"
ratatui-interact = "*"
