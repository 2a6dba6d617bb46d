[package]
name = "plotter_bridge"
version = "0.1.0"
edition = "2021"
publish = false

[dependencies]
clap = { version = "=4.6.7", features = ["derive"] }
serialport = { version = "=4.10.1", default-features = false }
tokio = { version = "=1.53.2", features = ["macros", "rt-multi-thread", "signal"] }
warp = "=0.3.7"
