[package]
name = "rocket_static_files"
version = "0.1.0"
edition = "2021"
publish = false

[dependencies]
base64 = "=0.13.1"
mime_guess = "=2.0.5"
phf = "=0.8.0"
phf_codegen = "=0.8.0"
rocket = { version = "0.5", default-features = false }
serde = { version = "1", features = ["derive"] }
siphasher = "=0.3.11"
walkdir = "=2.5.0"

[dev-dependencies]
phf_generator = "=0.8.0"
