[package]
name = "changed_files"
version = "0.1.0"
edition = "2021"
publish = false

[dependencies]
pathdiff = "0.2"
