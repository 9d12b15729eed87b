[package]
name = "ephpm_middleware_modules"
version = "0.1.0"
edition = "2021"
publish = false

[dependencies]
base64ct = { version = "1", features = ["alloc"] }
brotli = "8"
flate2 = "1"
hmac = "0.12"
ipnetwork = "0.21"
serde_json = "1"
sha2 = "0.10"
subtle = "2"
