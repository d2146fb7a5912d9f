[package]
name = "localsend_cli"
version = "1.0.0"
edition = "2021"
publish = false

[dependencies]
sha2 = "0.10"
hex = "0.4"
mime_guess = "2"
rs-machineid = "*"
infer = "0.19"
miniserde = "0.1"
smol = "2"
smol-timeout = "0.6"
tiny_http = "0.12"
zfish = "0.1"
