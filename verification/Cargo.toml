[package]
name = "tera_statistics_analyser"
version = "0.1.0"
edition = "2021"
publish = false

[dependencies]
docopt = "1"
glob = "0.3"
num_cpus = "1"
serde = { version = "1", features = ["derive"] }
serde_json = "1"
threadpool = "1"
xz2 = "0.1"
