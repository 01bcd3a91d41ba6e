[package]
name = "todo_core"
version = "0.1.0"
edition = "2021"
publish = false

[dependencies]
crossterm = "=0.29.0"
serde = { version = "=1.0.229", features = ["derive"] }
quick-xml = { version = "=0.37.5", features = ["serialize"] }
