[package]
name = "sersve"
version = "0.4.0"
edition = "2021"
publish = false

[dependencies]
regex = "1"
conduit-mime-types = "*"
mustache = "*"
iron = "*"
docopt = "1"
serde = { version = "1", features = ["derive"] }
serde_json = "1"
env_logger = "*"
libc = "0.2"
num_cpus = "1"
lazy_static = "1"
