[package]
name = "tfgen"
version = "0.1.0"
edition = "2021"
publish = false

[dependencies]
hcl-rs = "*"
serde_json = "*"
args = "*"
getopts = "*"
