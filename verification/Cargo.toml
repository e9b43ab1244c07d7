[package]
name = "nickel"
version = "0.1.0"
edition = "2021"
publish = false

[dependencies]
codespan = "=0.11.1"
codespan-reporting = "=0.11.1"
lalrpop-util = "=0.19.12"
serde_json = "=1.0.154"
serde_yaml = "=0.8.26"
toml = "=0.5.11"
