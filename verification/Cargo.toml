[package]
name = "cands"
version = "0.1.0"
edition = "2021"
publish = false

[dependencies]
codespan-reporting = "*"
log = "*"
env_logger = "*"
