[package]
name = "raster_tiles"
version = "0.1.0"
edition = "2021"
publish = false

[dependencies]
anyhow = "1"
clap = { version = "4", features = ["derive"] }
gdal = "*"
http-body-util = "0.1"
hyper = { version = "1", features = ["http1", "server"] }
hyper-util = { version = "0.1", features = ["tokio"] }
image = { version = "0.25", default-features = false, features = ["jpeg"] }
itertools = "*"
thiserror = "*"
tokio = { version = "1", features = ["rt", "rt-multi-thread", "net", "macros"] }
url = "2"
webp = { version = "*", default-features = false }
