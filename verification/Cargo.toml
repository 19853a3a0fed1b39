[package]
name = "acceptarium"
version = "0.1.0"
edition = "2021"
publish = false

[dependencies]
blake3 = "=1.8.7"
nanoid = "=0.5.0"
convert_case = "=0.6.0"
tera = { version = "=1.20.1", default-features = false }
serde = { version = "=1.0.229", features = ["derive"] }
serde_json = "=1.0.154"
serde_yaml = "=0.9.34"
serde-hjson = "=1.1.0"
serde-xml-rs = "=0.8.2"
toml = "=1.1.8"
glob = "=0.3.4"
git2 = { version = "=0.21.0", default-features = false }
subprocess = "=1.2.3"
which = "=8.0.6"
sugar_path = "=3.0.0"
config = { version = "=0.15.27", default-features = false, features = ["toml", "convert-case"] }
flexi_logger = { version = "=0.31.10", default-features = false }
log = { version = "=0.4.35", features = ["serde"] }
clap = { version = "=4.6.7", features = ["derive"] }
clap-verbosity-flag = "=3.0.4"
crossterm = "=0.29.0"
ratatui = "=0.30.2"
ratatui-image = "=11.1.0"
image = { version = "=0.25.10", default-features = false, features = ["png", "jpeg"] }
tokio = { version = "=1.54.1", features = ["rt-multi-thread"] }
base64 = "=0.23.1"
