[package]
name = "component_install"
version = "0.1.0"
edition = "2021"
publish = false

[dependencies]
anyhow = "1"
cfg-if = "1"
home = "0.5"
rand = "0.8"
rs_tracing = { version = "1", features = ["rs_tracing"] }
termcolor = "1"
tokio = { version = "1", default-features = false, features = ["rt-multi-thread"] }
tracing = "0.1"
tracing-subscriber = { version = "0.3", features = ["env-filter"] }
