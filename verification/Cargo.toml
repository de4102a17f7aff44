[package]
name = "static_files"
version = "0.1.0"
edition = "2021"
publish = false

[dependencies]
httpdate = "=1.0.3"
percent-encoding = "=2.3.2"
mime_guess = "=2.0.5"

[dev-dependencies]
http = "=1.5.0"
mime = "=0.3.17"
