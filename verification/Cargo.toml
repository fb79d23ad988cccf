[package]
name = "curl_parser"
version = "0.1.0"
edition = "2021"
publish = false

[dependencies]
clap = { version = "4", features = ["derive"] }
pest = "2"
thiserror = "2"
