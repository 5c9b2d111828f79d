[package]
name = "typed_lua"
version = "0.1.0"
edition = "2021"
publish = false

[dependencies]
hashbrown = "0.15"
hexf-parse = "0.2"
