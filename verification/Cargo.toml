[package]
name = "mmtk"
version = "0.1.0"
edition = "2021"
publish = false

[dependencies]
json = "0.12"
atomic = "0.5"
enum-map = "2"
libc = "0.2"
log = "0.4"
