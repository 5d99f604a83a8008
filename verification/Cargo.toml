[package]
name = "jam_services"
version = "0.1.0"
edition = "2021"
publish = false

[dependencies]
jam-pvm-common = { version = "=0.1.29", features = ["service", "logging"] }
jam-types = "=0.1.29"
jam-bootstrap-service-common = "=0.1.29"
jade = "=0.0.14"
wasmi = "=2.0.0"
polkavm-derive = "=0.37.0"
