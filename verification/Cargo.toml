[package]
name = "efiks"
version = "0.1.0"
edition = "2021"
publish = false

[dependencies]
slab = "0.4"
elf = { version = "0.7", default-features = false }
