[package]
name = "rolling_in_the_diff"
version = "0.1.0"
edition = "2021"
publish = false

[dependencies]
md5 = "*"
bitvec = "*"
rayon = "*"
serde = { version = "*", features = ["derive"] }
bincode2 = "*"
clap = { version = "*", features = ["derive"] }
anyhow = "*"
env_logger = "*"
log = "*"
thiserror = "*"

[dev-dependencies]
adler32 = "*"
