[package]
name = "instance_patch"
version = "0.1.0"
edition = "2021"
publish = false

[dependencies]
rbx_dom_weak = "1"
