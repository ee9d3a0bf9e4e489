[package]
name = "ecr_cost"
version = "0.1.0"
edition = "2021"
publish = false

[dependencies]
chrono = "0.4"
rusoto_core = { version = "0.42", default-features = false, features = ["rustls"] }
rusoto_ecr = { version = "0.42", default-features = false, features = ["rustls"] }
structopt = "0.3"
tabwriter = "1"
