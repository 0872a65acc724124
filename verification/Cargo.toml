[package]
name = "query_info"
version = "0.1.0"
edition = "2021"
publish = false

[dependencies]
ecdsa = { version = "=0.17.0", default-features = false, features = ["algorithm"] }
enr = "=0.14.0"
k256 = { version = "=0.14.0", default-features = false, features = ["ecdsa"] }
smallvec = "=1.16.2"
tokio = { version = "=1.53.2", default-features = false, features = ["sync"] }
