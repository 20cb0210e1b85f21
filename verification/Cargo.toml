[package]
name = "is_tree"
version = "0.1.0"
edition = "2021"
publish = false

[dependencies]
chrono = { version = "0.4", default-features = false, features = ["std", "clock"] }
clap = { version = "4", features = ["std", "help", "usage", "error-context"] }
serde_json = "1"
tokio = { version = "1", features = ["macros", "rt"] }
