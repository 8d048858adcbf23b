[package]
name = "lvchat"
version = "0.1.0"
edition = "2021"
publish = false

[dependencies]
bincode2 = "2"
serde = { version = "1", features = ["derive"] }
chrono = "0.4"
chrono-humanize = "*"
flume = "*"
parking_lot = "*"
log = "0.4"
flexi_logger = "0.15"
structopt = "0.3"
cfg-if = "*"
tui = { version = "0.9", default-features = false, features = ["crossterm"] }
