[package]
name = "issue_relay"
version = "0.1.0"
edition = "2021"
publish = false

[dependencies]
dotenv = "=0.15.0"
gitlab = "=0.1610.0"
rocket = "0.5"
rocket_cors = "0.6"
