[package]
name = "fssm"
version = "0.1.0"
edition = "2021"
publish = false

[dependencies]
chrono = "=0.4.45"
hashbrown = "=0.17.1"
circular-buffer = "=1.2.1"
itertools = "=0.15.0"
actix-web = "=4.18.1"
actix-cors = "=0.7.2"
serde = { version = "=1.0.229", features = ["derive"] }
serde_json = "=1.0.154"
phf = { version = "=0.14.0", features = ["macros"] }
once_cell = "=1.21.4"
lazy_static = "*"
statrs = "=0.19.1"
