[package]
name = "gfx_memory"
version = "0.1.0"
edition = "2021"
publish = false

[dependencies]
gfx-hal = "0.6"
gfx-backend-empty = "0.6"
arbitrary = "0.4"
