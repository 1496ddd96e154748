[package]
name = "pingate"
version = "0.1.0"
edition = "2021"
publish = false

[dependencies]
async-trait = "0.1"
bollard = { version = "*", features = ["ssl"] }
env_logger = "*"
futures-util = "0.3"
http = "1"
log = "0.4"
pingora = { version = "*", features = ["lb", "proxy"] }
tokio = { version = "1", features = ["net", "rt", "time", "macros"] }
