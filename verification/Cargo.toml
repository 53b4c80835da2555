[package]
name = "jsonld_expansion"
version = "0.1.0"
edition = "2021"
publish = false

[dependencies]
oxiri = "*"
oxhttp = "*"
json-event-parser = "*"
