[package]
name = "geoprof"
version = "0.1.0"
edition = "2021"
publish = false

[dependencies]
anyhow = "*"
byteorder = "*"
clap = { version = "*", features = ["derive"] }
dashmap = "*"
env_logger = "*"
flate2 = "*"
geo = "*"
geo-types = "*"
geojson = "*"
h3o = { version = "*", features = ["geo"] }
hextree = "*"
indicatif = "*"
itertools = "*"
log = "*"
memmap2 = "*"
num-traits = "*"
rayon = "*"
serde = { version = "*", features = ["derive"] }
serde_json = "*"
textplots = "*"
thiserror = "*"
