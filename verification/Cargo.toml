[package]
name = "intl_rs"
version = "0.1.0"
edition = "2021"
publish = false

[dependencies]
accept-language = "2"
lazy_static = "1"
serde_json = "1"
string_template = "0.2"
