[package]
name = "mac_rdp_server"
version = "0.1.0"
edition = "2021"
publish = false

[dependencies]
anyhow = "=1.0.104"
async-trait = "=0.1.92"
bytes = "=1.12.1"
core-graphics = "=0.25.0"
ironrdp-acceptor = "=0.12.0"
ironrdp-ainput = "=0.10.0"
ironrdp-async = "=0.12.0"
ironrdp-cliprdr = "=0.9.0"
ironrdp-connector = "=0.12.0"
ironrdp-core = "=0.3.1"
ironrdp-displaycontrol = "=0.10.0"
ironrdp-dvc = "=0.10.0"
ironrdp-egfx = "=0.5.0"
ironrdp-graphics = "=0.11.0"
ironrdp-nscodec = { version = "=0.4.0", features = ["encoder"] }
ironrdp-pdu = { version = "=0.11.0", features = ["std", "qoi", "qoiz"] }
ironrdp-rdpsnd = "=0.11.0"
ironrdp-svc = "=0.10.0"
ironrdp-tokio = { version = "=0.12.0", features = ["reqwest-rustls-ring"] }
qoicoubeh = "=0.5.0"
rayon = "=1.12.0"
rcgen = "=0.14.10"
tokio = { version = "=1.54.1", features = ["full"] }
tokio-rustls = "=0.26.6"
tracing = "=0.1.44"
tracing-subscriber = { version = "=0.3.23", features = ["env-filter"] }
zstd-safe = "=8.2.0"
