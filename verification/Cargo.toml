[package]
name = "rofd"
version = "0.1.0"
edition = "2021"
publish = false

[dependencies]
der = { version = "*", features = ["derive", "oid", "alloc", "pem"] }
relative-path = "*"
chrono = "*"
minidom = "*"
zip = { version = "*", default-features = false, features = ["deflate"] }
sm2 = { version = "*", features = ["dsa", "pem"] }
pkcs8 = { version = "*", features = ["pem"] }
x509-cert = { version = "*", features = ["builder", "pem"] }
signature = "*"
clap = { version = "*", features = ["derive"] }
cli-table = "*"
