[package]
name = "milli"
version = "0.1.0"
edition = "2021"
publish = false

[dependencies]
grenad = { version = "=0.4.7", default-features = false }
heed = "=0.10.6"
logging_timer = "=1.1.1"
roaring = "=0.10.12"

[dev-dependencies]
tempfile = "=3.27.0"
