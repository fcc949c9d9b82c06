[package]
name = "hello_page"
version = "0.1.0"
edition = "2021"
publish = false

[dependencies]
lambda_http = "*"
sailfish = "*"
tokio = { version = "1", features = ["macros"] }
tower-http = { version = "*", features = ["trace"] }
