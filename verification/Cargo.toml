[package]
name = "hcl_delete"
version = "0.1.0"
edition = "2021"
publish = false

[dependencies]
hcl-edit = "*"
