[package]
name = "flare"
version = "0.1.0"
edition = "2021"
publish = false

[dependencies]
arrow2 = { version = "*", default-features = false, features = ["compute_hash", "compute_filter", "compute_arithmetics", "compute_comparison", "io_ipc", "io_csv_write"] }
bincode = "1"
clp = "*"
getset = "*"
log = "0.4"
self_cell = "*"
serde = { version = "1", features = ["derive"] }
typed-arena = "2"
