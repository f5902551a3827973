[package]
name = "lpb"
version = "0.1.0"
edition = "2021"
publish = false

[dependencies]
ringbuffer = "0.13"
nalgebra = "*"
libm = "*"
serde = { version = "1", features = ["derive"] }
serde_json = "1"
clap = { version = "4", features = ["derive"] }
error-stack = "*"
futures = "*"
gpio-cdev = { version = "*", features = ["async-tokio"] }
i2cdev = "*"
int-enum = "0.5"
sqlx = { version = "*", features = ["sqlite", "runtime-tokio"] }
iceoryx-rs = "*"
