[package]
name = "light"
version = "0.1.0"
edition = "2021"
publish = false

[dependencies]
fixedbitset = "*"
glium = "0.32"
lazy_static = "1"
log = "0.4"
simple_logger = "*"
