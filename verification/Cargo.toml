[package]
name = "thrift"
version = "0.1.0"
edition = "2021"
publish = false

[dependencies]
podio = "*"
threadpool = "*"
bufstream = "*"
getopts = "*"
