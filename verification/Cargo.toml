[package]
name = "dbase"
version = "0.1.0"
edition = "2021"

[dependencies]
byteorder = "1"
encoding_rs = "0.8"
serde = "1"
time = "0.3"
