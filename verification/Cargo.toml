[package]
name = "crust"
version = "0.1.0"
edition = "2021"
publish = false

[dependencies]
md5 = "=0.7.0"
uuid = "=1.29.0"
cesu8 = "=1.1.0"
serde = { version = "=1.0.229", features = ["derive"] }
serde_json = "=1.0.154"
flate2 = "=1.1.10"
hex = "=0.4.3"
either = "=1.19.0"
byteorder = "=1.5.0"
tokio = { version = "=1.54.1", features = ["full"] }
log = "=0.4.35"
env_logger = "=0.11.11"
rand = "=0.8.8"
rsa = "=0.9.10"
sha1 = "=0.10.7"
digest = "=0.10.7"
num-bigint = "=0.4.8"
urlencoding = "=2.1.3"
base64 = "=0.22.1"
num_cpus = "=1.17.0"
aes = "=0.8.4"
cfb8 = "=0.8.1"
rustyline = "=14.0.0"
reqwest = { version = "=0.12.28", default-features = false, features = ["rustls-tls"] }
image = { version = "0.25", default-features = false, features = ["png"] }
