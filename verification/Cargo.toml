[package]
name = "unleashed_agent"
version = "0.1.0"
edition = "2021"
publish = false

[dependencies]
enigo = "*"
xcap = "*"
base64 = "=0.22.1"
chrono = "=0.4.45"
convert_case = "=0.12.0"
image = { version = "=0.25.10", default-features = false, features = ["jpeg", "png"] }
partial-json-fixer = "=0.5.5"
regex = "=1.13.1"
serde = { version = "=1.0.229", features = ["derive"] }
serde_json = "=1.0.154"
sha2 = "=0.10.9"
sysinfo = "=0.40.1"
tempfile = "=3.27.0"
url = "=2.5.8"
which = "=8.0.6"
