[package]
name = "fuse_img2heic"
version = "0.1.0"
edition = "2021"
publish = false

[dependencies]
aes-gcm = "=0.10.3"
anyhow = "1"
bytes = "1"
clap = { version = "4", features = ["derive"] }
crossbeam = "0.8"
ctrlc = "3"
env_logger = "0.11"
fuse3 = { version = "=0.8.1", features = ["tokio-runtime", "unprivileged"] }
futures-util = "0.3"
hex = "=0.4.3"
image = "0.25"
infer = "=0.16.0"
libc = "0.2"
libheif-rs = "*"
log = "0.4"
num_cpus = "1"
rand = "=0.8.8"
regex = "=1.13.1"
serde = { version = "1", features = ["derive"] }
serde_yaml = "0.9"
sha2 = "=0.10.9"
tokio = { version = "1", features = ["sync", "rt", "rt-multi-thread"] }
walkdir = "2"
