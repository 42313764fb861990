[package]
name = "greentic_runner"
version = "0.1.0"
edition = "2021"
publish = false

[dependencies]
serde = { version = "*", features = ["derive"] }
serde_json = "*"
serde_cbor = "*"
serde_yaml_bw = "*"
sha2 = "*"
chrono = "*"
jsonschema = "*"
handlebars = "*"
url = "*"
zip = "*"
walkdir = "*"
tempfile = "*"
