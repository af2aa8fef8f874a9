[package]
name = "qrlyzer"
version = "0.1.0"
edition = "2021"
publish = false

[dependencies]
image = { version = "=0.25.10", default-features = false, features = ["png"] }
imageproc = { version = "=0.27.0", default-features = false }
rqrr = "=0.11.0"
rxing = { version = "=0.9.3", default-features = false, features = ["decoders", "encoders", "qrcode", "encoding_rs"] }
pyo3 = "=0.30.1"
