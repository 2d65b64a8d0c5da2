[package]
name = "ecoz2"
version = "0.1.0"
edition = "2021"
publish = false

[dependencies]
byteorder = "=1.5.0"
itertools = "=0.15.0"
serde = { version = "=1.0.229", features = ["derive"] }
serde_json = "=1.0.154"
serde_cbor = "=0.11.2"
serde-pickle = "=1.2.0"
clap = { version = "=3.2.25", features = ["derive"] }
hound = "=3.5.1"
num_cpus = "=1.17.0"
colored = "=3.1.1"
walkdir = "=2.5.0"
regex = "=1.13.1"
csv = "=1.4.0"
ndarray = { version = "0.15", features = ["serde"] }
rand = "0.8"
assert_approx_eq = "1"
