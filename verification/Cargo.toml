[package]
name = "ic_oxigraph"
version = "0.1.0"
edition = "2021"
publish = false

[dependencies]
oxrdf = "=0.3.4"
rand = "=0.8.8"
getrandom = { version = "=0.2.17", features = ["custom"] }
ic-cdk = "=0.20.3"
ic-cdk-timers = "=1.0.0"
