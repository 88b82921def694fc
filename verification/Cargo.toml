[package]
name = "fractal_core"
version = "0.1.0"
edition = "2021"
publish = false

[dependencies]
image = { version = "*", default-features = false, features = ["png"] }
num-complex = "*"
rayon = "*"
serde = { version = "*", features = ["derive"] }
serde_json = "*"
serde_yaml = "*"
toml = "*"
log = "*"
log4rs = "*"
actix-web = { version = "*", default-features = false, features = ["macros"] }
actix-files = "*"
actix-multipart = "*"
futures-util = "*"
