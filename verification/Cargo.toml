[package]
name = "anonymizer"
version = "0.1.0"
edition = "2021"
publish = false

[dependencies]
sha1 = "0.10"
polars = { version = "0.53", default-features = false, features = ["parquet", "dtype-struct"] }
polars-arrow = "0.53"
polars-utils = "0.53"
rayon = "1"
clap = { version = "4", features = ["derive"] }
serde = { version = "1", features = ["derive"] }
config = "0.15"
glob = "0.3"
log = "0.4"
env_logger = "0.11"
thiserror = "2"

[dev-dependencies]
regex = "1"
