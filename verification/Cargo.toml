[package]
name = "lldp_neighbors"
version = "0.1.0"
edition = "2021"
publish = false

[dependencies]
chrono = { version = "0.4", default-features = false, features = ["std", "clock"] }
sqlx = { version = "0.8", default-features = false, features = ["postgres", "chrono", "derive", "macros"] }
thiserror = "2"
tonic = "*"
tracing = "0.1"
