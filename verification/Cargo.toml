[package]
name = "ustreamer"
version = "0.1.0"
edition = "2021"
publish = false

[dependencies]
axum = "=0.7.9"
bytes = "=1.12.1"
chrono = "=0.4.45"
clap = { version = "=4.6.7", features = ["derive"] }
crossbeam-channel = "=0.5.17"
futures = "=0.3.34"
num_cpus = "=1.17.0"
rayon = "=1.12.0"
resize = "=0.8.9"
rgb = "=0.8.53"
serde_json = "=1.0.154"
sysinfo = "=0.30.13"
tokio = { version = "=1.54.1", features = ["full"] }
tokio-stream = "=0.1.19"
turbojpeg = "=1.5.1"
uuid = { version = "=1.29.0", features = ["v4"] }
v4l2r = "=0.0.8"
yuv = { version = "=0.8.19", features = ["fast_mode"] }
