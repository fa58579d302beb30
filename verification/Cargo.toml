[package]
name = "synthizer"
version = "0.1.0"
edition = "2021"
publish = false

[dependencies]
arrayvec = "0.7"
log = "0.4"
rubato = "0.16"
symphonia = "0.5"
thiserror = "2"
