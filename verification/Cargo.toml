[package]
name = "egress_proxy"
version = "0.1.0"
edition = "2021"
publish = false

[dependencies]
cidr = "0.2"
rand = "0.8"
getopts = "0.2"
hyper = { version = "0.14", features = ["server", "client", "http1", "tcp", "runtime"] }
libc = "0.2"
native-tls = "0.2"
tokio = { version = "1", features = ["full"] }
tokio-native-tls = "0.3"
tokio-socks = "0.5"
scopeguard = "1"
