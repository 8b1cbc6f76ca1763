[package]
name = "sincere"
version = "0.7.0"
edition = "2021"
publish = false

[dependencies]
regex = "1"
twoway = "0.2"
httparse = "1"
url = "2"
mime = "0.3"
mime_guess = "2"
rand = "0.7"
chrono = "0.4"
nson = "*"
num_cpus = "1"
serde = { version = "1", features = ["derive"] }
serde_json = "1"
hyper = "0.12"
futures = "0.1"
futures-cpupool = "0.1"
rustls = "0.16"
soio = "*"
