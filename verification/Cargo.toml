[package]
name = "sidemantic"
version = "0.1.0"
edition = "2021"
publish = false

[dependencies]
sqlparser = { version = "=0.52.0", features = ["visitor"] }
polyglot-sql = { version = "=0.13.4", default-features = false, features = ["ast-tools"] }
serde = { version = "=1.0.229", features = ["derive"] }
once_cell = "=1.21.4"
thiserror = "=1.0.69"
