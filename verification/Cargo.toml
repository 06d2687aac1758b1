[package]
name = "cloud_lights"
version = "0.1.0"
edition = "2021"
publish = false

[dependencies]
serde = { version = "=1.0.229", features = ["derive"] }
serde_json = "=1.0.154"
serial = "=0.4.0"
glium = "=0.26.0"
glium_text_rusttype = "=0.3.3"
