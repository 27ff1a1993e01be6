[package]
name = "blinc_dsl_core"
version = "0.1.0"
edition = "2021"
publish = false

[dependencies]
thiserror = "2.0.21"
tracing = "0.1.44"
