[package]
name = "sql_from_models"
version = "0.1.0"
edition = "2021"
publish = false

[dependencies]
models-parser = "=0.2.0"
url = "=2.5.8"
