[package]
name = "yasa"
version = "0.1.0"
edition = "2021"
publish = false

[dependencies]
chrono = "=0.4.45"
clap = { version = "4", features = ["derive"] }
crossbeam = "0.8"
csv = "=1.4.0"
dsp = "=0.10.2"
env_logger = "0.11"
futuresdr = { version = "=0.0.41", default-features = false, features = ["seify"] }
num-integer = "=0.1.47"
serde = { version = "1", features = ["derive"] }
toml = "0.8"

[dev-dependencies]
futuredsp = "=0.0.6"
num-complex = "0.4"
