[package]
name = "nb_sync"
version = "0.1.0"
edition = "2021"
publish = false

[dependencies]
nb = "0.1"
bare-metal = "0.2"
