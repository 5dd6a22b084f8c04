[package]
name = "resource_chart"
version = "0.1.0"
edition = "2021"
publish = false

[dependencies]
chrono = { version = "0.4", default-features = false, features = ["std"] }
regex = "1"
rocket = "0.5"
rocket_dyn_templates = { version = "0.2", features = ["handlebars"] }
serde = { version = "1", features = ["derive"] }
