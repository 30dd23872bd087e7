[package]
name = "rogue_core"
version = "0.1.0"
edition = "2021"
publish = false

[dependencies]
rltk = "=0.8.7"
specs = { version = "=0.16.1", default-features = false }
specs-derive = "=0.4.1"
